//! Aggregation: ordering of the combined items, the novelty filter, and the
//! update of the seen record.

use vstd::prelude::*;
use crate::item::{DisplayLine, FeedItem};
use crate::seen::SeenRecord;
use crate::timestamp::Timestamp;

verus! {

/// How the combined items are ordered before display.
#[derive(Clone, Copy, Debug, PartialEq, Eq, Structural)]
pub enum SortMode {
    /// Feed order, then entry order within each feed.
    Original,
    /// Newest first.
    Desc,
    /// Oldest first.
    Asc,
}

pub open spec fn same_instant(a: Timestamp, b: Timestamp) -> bool {
    a.secs == b.secs && a.nanos == b.nanos
}

/// Whether the item at position `a` is displayed before the one at `b`:
/// by date in the chosen direction, and by input position among equal
/// dates.
pub open spec fn precedes(keys: Seq<Timestamp>, mode: SortMode, a: int, b: int) -> bool {
    match mode {
        SortMode::Original => a < b,
        SortMode::Asc => keys[a].before(keys[b]) || (same_instant(keys[a], keys[b]) && a < b),
        SortMode::Desc => keys[b].before(keys[a]) || (same_instant(keys[a], keys[b]) && a < b),
    }
}

/// `p` lists the positions `0..keys.len()` in display order.
pub open spec fn is_display_order(p: Seq<usize>, keys: Seq<Timestamp>, mode: SortMode) -> bool {
    &&& p.len() == keys.len()
    &&& forall|k: int| 0 <= k < p.len() ==> p[k] < keys.len()
    &&& forall|v: int| 0 <= v < keys.len() ==> #[trigger] has_position(p, v)
    &&& forall|x: int, y: int|
        0 <= x < y < p.len() ==> precedes(keys, mode, #[trigger] p[x] as int, #[trigger] p[y] as int)
}

pub open spec fn has_position(p: Seq<usize>, v: int) -> bool {
    exists|k: int| 0 <= k < p.len() && p[k] == v
}

pub open spec fn dates_of(items: Seq<FeedItem>) -> Seq<Timestamp> {
    items.map_values(|i: FeedItem| i.pub_date)
}

proof fn lemma_precedes_total(keys: Seq<Timestamp>, mode: SortMode, a: int, b: int)
    requires
        a != b,
    ensures
        precedes(keys, mode, a, b) || precedes(keys, mode, b, a),
{
}

proof fn lemma_precedes_trans(keys: Seq<Timestamp>, mode: SortMode, a: int, b: int, c: int)
    requires
        precedes(keys, mode, a, b),
        precedes(keys, mode, b, c),
    ensures
        precedes(keys, mode, a, c),
{
}

fn places_before(items: &Vec<FeedItem>, mode: SortMode, a: usize, b: usize) -> (r: bool)
    requires
        a < items@.len(),
        b < items@.len(),
    ensures
        r == precedes(dates_of(items@), mode, a as int, b as int),
{
    let ka = &items[a].pub_date;
    let kb = &items[b].pub_date;
    let same = ka.secs == kb.secs && ka.nanos == kb.nanos;
    match mode {
        SortMode::Original => a < b,
        SortMode::Asc => ka.is_before(kb) || (same && a < b),
        SortMode::Desc => kb.is_before(ka) || (same && a < b),
    }
}

/// The display order of the items: a stable sort by date in the chosen
/// direction, or the original order.
pub fn sort_order(items: &Vec<FeedItem>, mode: SortMode) -> (r: Vec<usize>)
    ensures
        is_display_order(r@, dates_of(items@), mode),
{
    let ghost keys = dates_of(items@);
    let mut out: Vec<usize> = Vec::new();
    let mut i: usize = 0;
    while i < items.len()
        invariant
            keys == dates_of(items@),
            i <= items@.len(),
            out@.len() == i,
            forall|k: int| 0 <= k < out@.len() ==> out@[k] < i,
            forall|v: int| 0 <= v < i ==> #[trigger] has_position(out@, v),
            forall|x: int, y: int|
                0 <= x < y < out@.len() ==> precedes(keys, mode, #[trigger] out@[x] as int, #[trigger] out@[y] as int),
        decreases items@.len() - i,
    {
        let mut pos: usize = 0;
        while pos < out.len() && !places_before(items, mode, i, out[pos])
            invariant
                keys == dates_of(items@),
                i < items@.len(),
                pos <= out@.len(),
                forall|k: int| 0 <= k < out@.len() ==> out@[k] < i,
                forall|k: int| 0 <= k < pos ==> !precedes(keys, mode, i as int, #[trigger] out@[k] as int),
            decreases out@.len() - pos,
        {
            pos = pos + 1;
        }
        let ghost old_out = out@;
        out.insert(pos, i);
        proof {
            assert(out@[pos as int] == i);
            assert(has_position(out@, i as int));
            assert forall|v: int| 0 <= v < i implies #[trigger] has_position(out@, v) by {
                assert(has_position(old_out, v));
                let k = choose|k: int| 0 <= k < old_out.len() && old_out[k] == v;
                if k < pos {
                    assert(out@[k] == v);
                } else {
                    assert(out@[k + 1] == v);
                }
            }
            assert forall|k: int| 0 <= k < pos implies precedes(keys, mode, #[trigger] old_out[k] as int, i as int) by {
                lemma_precedes_total(keys, mode, old_out[k] as int, i as int);
            }
            if pos < old_out.len() {
                assert forall|k: int| pos <= k < old_out.len() implies precedes(keys, mode, i as int, #[trigger] old_out[k] as int) by {
                    if k > pos {
                        assert(precedes(keys, mode, old_out[pos as int] as int, old_out[k] as int));
                        lemma_precedes_trans(keys, mode, i as int, old_out[pos as int] as int, old_out[k] as int);
                    }
                }
            }
            assert forall|x: int, y: int|
                0 <= x < y < out@.len() implies precedes(keys, mode, #[trigger] out@[x] as int, #[trigger] out@[y] as int) by {
                if y < pos {
                    assert(out@[x] == old_out[x] && out@[y] == old_out[y]);
                } else if y == pos {
                    assert(out@[x] == old_out[x]);
                } else if x < pos {
                    assert(out@[x] == old_out[x] && out@[y] == old_out[y - 1]);
                } else if x == pos {
                    assert(out@[y] == old_out[y - 1]);
                } else {
                    assert(out@[x] == old_out[x - 1] && out@[y] == old_out[y - 1]);
                }
            }
        }
        i = i + 1;
    }
    out
}

} // verus!

verus! {

/// The identifiers of the items, taken in the order `p`.
pub open spec fn ids_in(items: Seq<FeedItem>, p: Seq<usize>) -> Seq<Seq<char>> {
    p.map_values(|k: usize| items[k as int].id())
}

/// The novelty pass over identifiers in display order, starting from the seen
/// record `rec`: which positions are displayed, each with whether it was novel,
/// and the record afterwards. An identifier is novel when the record (as
/// updated so far) lacks it; novel identifiers are appended, others never.
pub open spec fn novelty_pass(ids: Seq<Seq<char>>, rec: Seq<Seq<char>>, all: bool) -> (Seq<(int, bool)>, Seq<Seq<char>>)
    decreases ids.len(),
{
    if ids.len() == 0 {
        (Seq::empty(), rec)
    } else {
        let (shown, r) = novelty_pass(ids.drop_last(), rec, all);
        let id = ids.last();
        let novel = !r.contains(id);
        let shown2 = if novel || all { shown.push(((ids.len() - 1) as int, novel)) } else { shown };
        let r2 = if novel { r.push(id) } else { r };
        (shown2, r2)
    }
}

pub proof fn lemma_pass_positions(ids: Seq<Seq<char>>, rec: Seq<Seq<char>>, all: bool)
    ensures
        forall|j: int|
            0 <= j < novelty_pass(ids, rec, all).0.len() ==> 0 <= #[trigger] novelty_pass(
                ids,
                rec,
                all,
            ).0[j].0 < ids.len(),
    decreases ids.len(),
{
    if ids.len() > 0 {
        lemma_pass_positions(ids.drop_last(), rec, all);
        let sh0 = novelty_pass(ids.drop_last(), rec, all).0;
        let sh = novelty_pass(ids, rec, all).0;
        assert forall|j: int| 0 <= j < sh.len() implies 0 <= #[trigger] sh[j].0 < ids.len() by {
            if j < sh0.len() {
                assert(sh[j] == sh0[j]);
            }
        }
    }
}

/// The lines displayed for the items in order `p`, from the record `rec`, and
/// the record `rec2` after the run.
pub open spec fn run_outcome(
    items: Seq<FeedItem>,
    p: Seq<usize>,
    rec: Seq<Seq<char>>,
    all: bool,
    now: Timestamp,
    lines: Seq<DisplayLine>,
    rec2: Seq<Seq<char>>,
) -> bool {
    let (shown, r) = novelty_pass(ids_in(items, p), rec, all);
    &&& rec2 == r
    &&& lines.len() == shown.len()
    &&& forall|j: int|
        0 <= j < lines.len() ==> items[p[shown[j].0] as int].line_for(
            #[trigger] lines[j],
            now,
            !shown[j].1,
        )
}

pub open spec fn all_wf(items: Seq<FeedItem>) -> bool {
    forall|i: int| 0 <= i < items.len() ==> (#[trigger] items[i]).wf()
}

/// Displays the items in the order `order`: each item that is novel, or every
/// item when `all` is set, gets a line; each novel identifier is recorded.
pub fn show_in_order(
    items: &Vec<FeedItem>,
    order: &Vec<usize>,
    seen: &mut SeenRecord,
    now: &Timestamp,
    all: bool,
) -> (r: Vec<DisplayLine>)
    requires
        all_wf(items@),
        now.wf(),
        forall|k: int| 0 <= k < order@.len() ==> order@[k] < items@.len(),
    ensures
        run_outcome(items@, order@, old(seen)@, all, *now, r@, final(seen)@),
{
    let ghost rec0 = seen@;
    let ghost ids = ids_in(items@, order@);
    let mut lines: Vec<DisplayLine> = Vec::new();
    let mut k: usize = 0;
    while k < order.len()
        invariant
            all_wf(items@),
            now.wf(),
            forall|q: int| 0 <= q < order@.len() ==> order@[q] < items@.len(),
            ids == ids_in(items@, order@),
            k <= order@.len(),
            run_outcome(items@, order@.take(k as int), rec0, all, *now, lines@, seen@),
        decreases order@.len() - k,
    {
        let ghost pre = order@.take(k as int);
        let ghost next = order@.take(k + 1);
        assert(ids_in(items@, next).drop_last() =~= ids_in(items@, pre));
        let idx = order[k];
        let item = &items[idx];
        let id = item.get_id();
        let already_seen = seen.contains(&id);
        if !already_seen || all {
            let line = item.show(now, already_seen);
            lines.push(line);
        }
        if !already_seen {
            seen.append(id);
        }
        k = k + 1;
        proof {
            let (sh, _) = novelty_pass(ids_in(items@, next), rec0, all);
            let (sh0, _) = novelty_pass(ids_in(items@, pre), rec0, all);
            lemma_pass_positions(ids_in(items@, pre), rec0, all);
            assert forall|j: int| 0 <= j < lines@.len() implies items@[next[sh[j].0] as int].line_for(
                #[trigger] lines@[j],
                *now,
                !sh[j].1,
            ) by {
                if j < sh0.len() {
                    assert(next[sh0[j].0] == pre[sh0[j].0]);
                }
            }
        }
    }
    assert(order@.take(k as int) =~= order@);
    lines
}

/// Shows the combined items of all feeds: orders them by `sort`, displays the
/// novel ones (every one when `all` is set) and records the novel identifiers
/// in `seen`.
pub fn show_news(
    items: &Vec<FeedItem>,
    seen: &mut SeenRecord,
    now: &Timestamp,
    all: bool,
    sort: SortMode,
) -> (r: Vec<DisplayLine>)
    requires
        all_wf(items@),
        now.wf(),
    ensures
        exists|p: Seq<usize>|
            is_display_order(p, dates_of(items@), sort) && run_outcome(
                items@,
                p,
                old(seen)@,
                all,
                *now,
                r@,
                final(seen)@,
            ),
{
    let order = sort_order(items, sort);
    assert(dates_of(items@).len() == items@.len());
    let r = show_in_order(items, &order, seen, now, all);
    r
}

} // verus!
