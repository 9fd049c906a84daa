use crate::date::{date_text, Date};
use crate::event::EventView;
use crate::event_manager::{
    appended_rows, date_admitted, event_of_row, import_outcome, kept,
    lemma_kept_nothing_gone, lemma_kept_one_more, lemma_position_set_step, opt_text, opt_texts,
    position_set, row_of, selected, selected_below, selects, strictly_ascending, FilterView,
    ImportError,
};
use vstd::prelude::*;

verus! {

/// The search that constrains nothing.
pub open spec fn no_constraints() -> FilterView {
    FilterView { start: None, end: None, prefix: None, categories: Seq::empty(), exclude: false }
}

/// Every position below `n` of a selection, in ascending order.
pub open spec fn all_positions(n: int) -> Seq<int> {
    Seq::new(n as nat, |i: int| i)
}

/// A position lies in a selection exactly when the search selects the event there, and the
/// selection lists positions of the collection only.
pub proof fn lemma_selected_members(events: Seq<EventView>, f: FilterView, n: int)
    requires
        0 <= n <= events.len(),
    ensures
        forall|j: int|
            0 <= j < selected_below(events, f, n).len() ==> #[trigger] selected_below(
                events,
                f,
                n,
            )[j] < n,
        forall|i: int|
            0 <= i < n ==> (selected_below(events, f, n).contains(i) <==> selects(
                f,
                #[trigger] events[i],
            )),
    decreases n,
{
    if n > 0 {
        lemma_selected_members(events, f, n - 1);
        let prev = selected_below(events, f, n - 1);
        let cur = selected_below(events, f, n);
        assert forall|i: int|
            0 <= i < n implies (cur.contains(i) <==> selects(f, #[trigger] events[i])) by {
            if selects(f, events[n - 1]) {
                assert(cur == prev.push(n - 1));
                if i < n - 1 && cur.contains(i) {
                    let j = choose|j: int| 0 <= j < cur.len() && cur[j] == i;
                    assert(j < prev.len());
                    assert(prev.contains(i));
                }
                if i < n - 1 && prev.contains(i) {
                    let j = choose|j: int| 0 <= j < prev.len() && prev[j] == i;
                    assert(cur[j] == i);
                }
                if i == n - 1 {
                    assert(cur[prev.len() as int] == i);
                }
            } else {
                if i == n - 1 && cur.contains(i) {
                    let j = choose|j: int| 0 <= j < prev.len() && prev[j] == i;
                    assert(prev[j] < n - 1);
                }
            }
        }
    }
}

/// A search with no date bounds, no prefix and an empty category list selects every position,
/// in order, whether or not it excludes.
pub proof fn lemma_unconstrained_selects_all(events: Seq<EventView>, exclude: bool, n: int)
    requires
        0 <= n <= events.len(),
    ensures
        selected_below(events, FilterView { exclude, ..no_constraints() }, n) == all_positions(n),
    decreases n,
{
    if n > 0 {
        lemma_unconstrained_selects_all(events, exclude, n - 1);
        assert(all_positions(n) =~= all_positions(n - 1).push(n - 1));
    }
}

/// The number of positions below `i` that lie in `gone`.
pub open spec fn removed_before(gone: Set<int>, i: int) -> int
    decreases i,
{
    if i <= 0 {
        0
    } else if gone.contains(i - 1) {
        removed_before(gone, i - 1) + 1
    } else {
        removed_before(gone, i - 1)
    }
}

/// Each element of `s` at a position outside `gone` stands in `t` at that position less the
/// number of positions of `gone` below it.
pub open spec fn moved_down(s: Seq<EventView>, gone: Set<int>, t: Seq<EventView>) -> bool {
    forall|i: int|
        0 <= i < s.len() && !gone.contains(i) ==> 0 <= i - removed_before(gone, i) < t.len()
            && t[i - removed_before(gone, i)] == #[trigger] s[i]
}

/// Between two positions, no more positions are removed than lie between them.
proof fn lemma_removed_between(gone: Set<int>, i: int, j: int)
    requires
        0 <= i <= j,
    ensures
        0 <= removed_before(gone, i) <= i,
        0 <= removed_before(gone, j) - removed_before(gone, i) <= j - i,
    decreases j,
{
    if i < j {
        lemma_removed_between(gone, i, j - 1);
    } else {
        lemma_removed_at_most(gone, i);
    }
}

proof fn lemma_removed_at_most(gone: Set<int>, i: int)
    requires
        0 <= i,
    ensures
        0 <= removed_before(gone, i) <= i,
    decreases i,
{
    if i > 0 {
        lemma_removed_at_most(gone, i - 1);
    }
}

/// What is kept of `s`: each element at a position outside `gone` moves down by the number of
/// removed positions below it, and nothing else is kept.
pub proof fn lemma_kept_places(s: Seq<EventView>, gone: Set<int>)
    ensures
        kept(s, gone).len() == s.len() - removed_before(gone, s.len() as int),
        moved_down(s, gone, kept(s, gone)),
    decreases s.len(),
{
    if s.len() > 0 {
        let t = s.drop_last();
        lemma_kept_places(t, gone);
        assert forall|i: int| 0 <= i < s.len() && !gone.contains(i) implies 0 <= i
            - removed_before(gone, i) < kept(s, gone).len() by {
            lemma_removed_between(gone, i + 1, s.len() as int);
            lemma_removed_between(gone, 0, i);
        }
        assert forall|i: int|
            0 <= i < s.len() && !gone.contains(i) implies 0 <= i - removed_before(gone, i) < kept(
            s,
            gone,
        ).len() && kept(s, gone)[i - removed_before(gone, i)] == #[trigger] s[i] by {
            if i < t.len() {
                assert(t[i] == s[i]);
            }
        }
    }
}

/// Writing a collection out as rows and reading the rows back into an empty collection gives the
/// same events, in the same order, whatever date stands in for an unreadable one.
pub proof fn lemma_export_import_round_trip(
    events: Seq<EventView>,
    fallback: Date,
    after: Seq<EventView>,
    r: Result<Vec<usize>, ImportError>,
)
    requires
        forall|i: int| 0 <= i < events.len() ==> #[trigger] events[i].date.wf(),
        import_outcome(
            Seq::empty(),
            events.map_values(|e: EventView| row_of(e)),
            fallback,
            after,
            r,
        ),
    ensures
        r is Ok,
        after == events,
{
    let rows = events.map_values(|e: EventView| row_of(e));
    if let Err(ImportError::MissingField { row }) = r {
        assert(rows[row as int].len() == 3);
    }
    assert(appended_rows(Seq::empty(), rows, fallback, after));
    assert(after.len() == events.len());
    assert forall|i: int| 0 <= i < events.len() implies #[trigger] after[i] == events[i] by {
        let e = events[i];
        assert(rows[i] == row_of(e));
        assert(date_text(e.date) == rows[i][0]);
        assert(after[i] == event_of_row(rows[i], fallback));
        assert(after[0 + i].date == e.date);
    }
    assert(after =~= events);
}

/// The result of a search is a function of the events and of what the arguments hold: two
/// searches with equal bounds and equal texts give equal positions.
pub proof fn lemma_filter_repeatable(
    events: Seq<EventView>,
    start: Option<Date>,
    end: Option<Date>,
    desc_a: Option<String>,
    desc_b: Option<String>,
    cate_a: Seq<Option<String>>,
    cate_b: Seq<Option<String>>,
    exclude: bool,
)
    requires
        opt_text(desc_a) == opt_text(desc_b),
        opt_texts(cate_a) =~= opt_texts(cate_b),
    ensures
        selected(
            events,
            FilterView {
                start,
                end,
                prefix: opt_text(desc_a),
                categories: opt_texts(cate_a),
                exclude,
            },
        ) == selected(
            events,
            FilterView {
                start,
                end,
                prefix: opt_text(desc_b),
                categories: opt_texts(cate_b),
                exclude,
            },
        ),
{
}

/// Deleting the events at a set of positions and then searching without constraints yields
/// every position of what is left, and what is left is exactly the events that were at other
/// positions, in their former order: one fewer for each position deleted.
pub proof fn lemma_delete_then_list(events: Seq<EventView>, p: Seq<usize>)
    requires
        strictly_ascending(p),
        forall|i: int| 0 <= i < p.len() ==> p[i] < events.len(),
    ensures
        kept(events, position_set(p)).len() == events.len() - p.len(),
        moved_down(events, position_set(p), kept(events, position_set(p))),
        selected(kept(events, position_set(p)), no_constraints()) == all_positions(
            kept(events, position_set(p)).len() as int,
        ),
{
    let n = p.len() as int;
    lemma_kept_len(events, p, 0);
    assert(p.subrange(0, n) =~= p);
    let left = kept(events, position_set(p));
    lemma_kept_places(events, position_set(p));
    lemma_unconstrained_selects_all(left, false, left.len() as int);
    assert(FilterView { exclude: false, ..no_constraints() } == no_constraints());
}

/// Removing the positions listed from `k` on removes one event for each of them.
proof fn lemma_kept_len(events: Seq<EventView>, p: Seq<usize>, k: int)
    requires
        strictly_ascending(p),
        forall|i: int| 0 <= i < p.len() ==> p[i] < events.len(),
        0 <= k <= p.len(),
    ensures
        kept(events, position_set(p.subrange(k, p.len() as int))).len() == events.len() - (p.len()
            - k),
    decreases p.len() - k,
{
    let n = p.len() as int;
    if k == n {
        lemma_kept_nothing_gone(events, position_set(p.subrange(n, n)));
    } else {
        lemma_kept_len(events, p, k + 1);
        lemma_position_set_step(p, k);
        lemma_kept_one_more(events, position_set(p.subrange(k + 1, n)), p[k] as int);
    }
}

/// A search whose two bounds are the same day selects exactly the events of that day that meet
/// its other constraints, and never an event of another day, though a range with distinct bounds
/// around that other day would select it.
pub proof fn lemma_single_day(
    events: Seq<EventView>,
    day: Date,
    prefix: Option<Seq<char>>,
    categories: Seq<Option<Seq<char>>>,
    exclude: bool,
)
    ensures
        forall|d: Date| date_admitted(d, Some(day), Some(day)) <==> d == day,
        forall|d: Date, s: Date, e: Date|
            s != e ==> (date_admitted(d, Some(s), Some(e)) <==> !d.before(s) && d.before(e)),
        ({
            let f = FilterView {
                start: Some(day),
                end: Some(day),
                prefix,
                categories,
                exclude,
            };
            forall|i: int|
                0 <= i < events.len() ==> (selected(events, f).contains(i) <==> (
                #[trigger] events[i].date == day && selects(f, events[i])))
        }),
{
    let f = FilterView { start: Some(day), end: Some(day), prefix, categories, exclude };
    lemma_selected_members(events, f, events.len() as int);
}

/// A search that excludes a non-empty list of categories selects exactly the events whose
/// category is not listed; one that excludes an empty list selects every event.
pub proof fn lemma_exclusion(events: Seq<EventView>, categories: Seq<Option<Seq<char>>>)
    ensures
        categories.len() > 0 ==> forall|i: int|
            0 <= i < events.len() ==> (selected(
                events,
                FilterView { categories, exclude: true, ..no_constraints() },
            ).contains(i) <==> !categories.contains(Some(#[trigger] events[i].category))),
        selected(events, FilterView { exclude: true, ..no_constraints() }) == all_positions(
            events.len() as int,
        ),
{
    let f = FilterView { categories, exclude: true, ..no_constraints() };
    lemma_selected_members(events, f, events.len() as int);
    lemma_unconstrained_selects_all(events, true, events.len() as int);
}

} // verus!
