use crate::date::{date_text, iso_pattern, parsed_date, today, Date};
use crate::event::{event_text, Event, EventView};
use vstd::prelude::*;

verus! {

/// The constraints of a search, as mathematical values.
pub struct FilterView {
    pub start: Option<Date>,
    pub end: Option<Date>,
    pub prefix: Option<Seq<char>>,
    pub categories: Seq<Option<Seq<char>>>,
    pub exclude: bool,
}

/// Positions as integers.
pub open spec fn positions(p: Seq<usize>) -> Seq<int> {
    p.map_values(|i: usize| i as int)
}

pub open spec fn opt_text(s: Option<String>) -> Option<Seq<char>> {
    match s {
        Some(t) => Some(t@),
        None => None,
    }
}

pub open spec fn opt_texts(v: Seq<Option<String>>) -> Seq<Option<Seq<char>>> {
    v.map_values(|s: Option<String>| opt_text(s))
}

/// The date constraint. Equal bounds select that one day; distinct bounds select the half-open
/// range from `start` up to but not including `end`; a single bound is inclusive below and
/// exclusive above.
pub open spec fn date_admitted(d: Date, start: Option<Date>, end: Option<Date>) -> bool {
    match (start, end) {
        (Some(s), Some(e)) => if s == e {
            d == s
        } else {
            !d.before(s) && d.before(e)
        },
        (Some(s), None) => !d.before(s),
        (None, Some(e)) => d.before(e),
        (None, None) => true,
    }
}

pub open spec fn has_prefix(text: Seq<char>, prefix: Seq<char>) -> bool {
    prefix.len() <= text.len() && text.subrange(0, prefix.len() as int) == prefix
}

pub open spec fn description_admitted(description: Seq<char>, prefix: Option<Seq<char>>) -> bool {
    match prefix {
        Some(p) => has_prefix(description, p),
        None => true,
    }
}

/// The category constraint: an empty list admits every category; otherwise the category must be
/// listed, or, when `exclude` holds, must not be.
pub open spec fn category_admitted(
    category: Seq<char>,
    categories: Seq<Option<Seq<char>>>,
    exclude: bool,
) -> bool {
    if categories.len() == 0 {
        true
    } else if exclude {
        !categories.contains(Some(category))
    } else {
        categories.contains(Some(category))
    }
}

pub open spec fn selects(f: FilterView, e: EventView) -> bool {
    &&& date_admitted(e.date, f.start, f.end)
    &&& description_admitted(e.description, f.prefix)
    &&& category_admitted(e.category, f.categories, f.exclude)
}

/// The positions below `n` of the events that `f` selects, in ascending order.
pub open spec fn selected_below(events: Seq<EventView>, f: FilterView, n: int) -> Seq<int>
    decreases n,
{
    if n <= 0 {
        Seq::empty()
    } else if selects(f, events[n - 1]) {
        selected_below(events, f, n - 1).push(n - 1)
    } else {
        selected_below(events, f, n - 1)
    }
}

/// The positions of all events that `f` selects, in ascending order.
pub open spec fn selected(events: Seq<EventView>, f: FilterView) -> Seq<int> {
    selected_below(events, f, events.len() as int)
}

/// The elements of `s` whose positions are not in `gone`, in their order.
pub open spec fn kept<T>(s: Seq<T>, gone: Set<int>) -> Seq<T>
    decreases s.len(),
{
    if s.len() == 0 {
        Seq::empty()
    } else if gone.contains(s.len() - 1) {
        kept(s.drop_last(), gone)
    } else {
        kept(s.drop_last(), gone).push(s.last())
    }
}

/// The positions that `p` lists.
pub open spec fn position_set(p: Seq<usize>) -> Set<int> {
    Set::new(|i: int| exists|j: int| 0 <= j < p.len() && #[trigger] p[j] as int == i)
}

pub open spec fn strictly_ascending(p: Seq<usize>) -> bool {
    forall|i: int, j: int| 0 <= i < j < p.len() ==> p[i] < p[j]
}

/// The positions listed from `k` on are the one at `k` together with those listed after it,
/// which all lie above it.
pub proof fn lemma_position_set_step(p: Seq<usize>, k: int)
    requires
        strictly_ascending(p),
        0 <= k < p.len(),
    ensures
        position_set(p.subrange(k, p.len() as int)) == position_set(
            p.subrange(k + 1, p.len() as int),
        ).insert(p[k] as int),
        forall|x: int| #[trigger]
            position_set(p.subrange(k + 1, p.len() as int)).contains(x) ==> p[k] < x,
{
    let all = p.subrange(k, p.len() as int);
    let tail = p.subrange(k + 1, p.len() as int);
    let rest = position_set(tail);
    assert forall|i: int| rest.contains(i) implies #[trigger] position_set(all).contains(i) by {
        let j = choose|j: int| 0 <= j < tail.len() && #[trigger] tail[j] as int == i;
        assert(all[j + 1] as int == i);
    }
    assert forall|i: int|
        #[trigger] position_set(all).contains(i) && i != p[k] implies rest.contains(i) by {
        let j = choose|j: int| 0 <= j < all.len() && #[trigger] all[j] as int == i;
        assert(j != 0);
        assert(tail[j - 1] as int == i);
    }
    assert(all[0] == p[k]);
    assert(position_set(all) =~= rest.insert(p[k] as int));
    assert forall|x: int| rest.contains(x) implies p[k] < x by {
        let j = choose|j: int| 0 <= j < tail.len() && #[trigger] tail[j] as int == x;
        assert(p[k + 1 + j] as int == x);
    }
}

/// Removing nothing keeps every element.
pub proof fn lemma_kept_nothing_gone<T>(s: Seq<T>, gone: Set<int>)
    requires
        forall|i: int| 0 <= i < s.len() ==> !gone.contains(i),
    ensures
        kept(s, gone) == s,
    decreases s.len(),
{
    if s.len() > 0 {
        lemma_kept_nothing_gone(s.drop_last(), gone);
        assert(s.drop_last().push(s.last()) =~= s);
    }
}

/// Removing one more position, below all those removed already, removes one more element at
/// that same position.
pub proof fn lemma_kept_one_more<T>(s: Seq<T>, gone: Set<int>, q: int)
    requires
        0 <= q < s.len(),
        forall|p: int| gone.contains(p) ==> q < p,
    ensures
        q < kept(s, gone).len(),
        kept(s, gone.insert(q)) == kept(s, gone).remove(q),
    decreases s.len(),
{
    let t = s.drop_last();
    if q == s.len() - 1 {
        lemma_kept_nothing_gone(s, gone);
        lemma_kept_nothing_gone(t, gone.insert(q));
        assert(s.remove(q) =~= t);
    } else {
        lemma_kept_one_more(t, gone, q);
        if !gone.contains(s.len() - 1) {
            assert(kept(t, gone).push(s.last()).remove(q) =~= kept(t, gone).remove(q).push(
                s.last(),
            ));
        }
    }
}


/// A row handed to an import lacks one of the three fields that a row must have.
#[derive(Clone, Copy, Debug, PartialEq, Eq, Structural)]
pub enum ImportError {
    /// The row at this position, counted from zero, has fewer than three fields.
    MissingField { row: usize },
}

/// The fields of an exported event: date text, description, category.
pub open spec fn row_of(e: EventView) -> Seq<Seq<char>> {
    seq![date_text(e.date), e.description, e.category]
}

pub open spec fn rows_text(rows: Seq<Vec<String>>) -> Seq<Seq<Seq<char>>> {
    rows.map_values(|row: Vec<String>| row@.map_values(|t: String| t@))
}

/// The event that a row of three or more fields is read as: its date is read from the first
/// field as `YYYY-MM-DD`, and is `fallback` where that fails; the second and third fields are
/// its description and category.
pub open spec fn event_of_row(row: Seq<Seq<char>>, fallback: Date) -> EventView {
    EventView {
        date: match parsed_date(row[0], iso_pattern()) {
            Some(d) => d,
            None => fallback,
        },
        description: row[1],
        category: row[2],
    }
}

/// The positions below `n` of the rows whose first field cannot be read as a date.
pub open spec fn unread_below(rows: Seq<Seq<Seq<char>>>, n: int) -> Seq<int>
    decreases n,
{
    if n <= 0 {
        Seq::empty()
    } else if parsed_date(rows[n - 1][0], iso_pattern()) is None {
        unread_below(rows, n - 1).push(n - 1)
    } else {
        unread_below(rows, n - 1)
    }
}

pub open spec fn complete_below(rows: Seq<Seq<Seq<char>>>, n: int) -> bool {
    forall|i: int| 0 <= i < n ==> #[trigger] rows[i].len() >= 3
}

/// `after` is `before` followed by the events read from `rows`; a row whose first field is the
/// canonical text of a date gives an event of that date.
pub open spec fn appended_rows(
    before: Seq<EventView>,
    rows: Seq<Seq<Seq<char>>>,
    fallback: Date,
    after: Seq<EventView>,
) -> bool {
    &&& after == before + rows.map_values(|row: Seq<Seq<char>>| event_of_row(row, fallback))
    &&& forall|i: int, d: Date|
        0 <= i < rows.len() && d.wf() && #[trigger] date_text(d) == #[trigger] rows[i][0]
            ==> after[before.len() + i].date == d
}

/// What an import of `rows` into `before` gives: when a row lacks a field, the error names the
/// first such row and nothing is imported; otherwise every row is appended, and the result lists
/// the rows whose date could not be read.
pub open spec fn import_outcome(
    before: Seq<EventView>,
    rows: Seq<Seq<Seq<char>>>,
    fallback: Date,
    after: Seq<EventView>,
    r: Result<Vec<usize>, ImportError>,
) -> bool {
    match r {
        Ok(unread) => {
            &&& complete_below(rows, rows.len() as int)
            &&& appended_rows(before, rows, fallback, after)
            &&& positions(unread@) == unread_below(rows, rows.len() as int)
        },
        Err(ImportError::MissingField { row }) => {
            &&& row < rows.len()
            &&& rows[row as int].len() < 3
            &&& complete_below(rows, row as int)
            &&& after == before
        },
    }
}

/// An ordered collection of events, kept in the order of insertion.
pub struct EventManager {
    event_list: Vec<Event>,
}

impl View for EventManager {
    type V = Seq<EventView>;

    closed spec fn view(&self) -> Seq<EventView> {
        self.event_list@.map_values(|e: Event| e@)
    }
}

impl EventManager {
    /// An empty collection.
    pub fn new() -> (r: EventManager)
        ensures
            r@ == Seq::<EventView>::empty(),
    {
        let r = EventManager { event_list: Vec::new() };
        proof {
            assert(r@ =~= Seq::<EventView>::empty());
        }
        r
    }

    /// Appends `e` after the events already held.
    pub fn add_event(&mut self, e: Event)
        ensures
            final(self)@ == old(self)@.push(e@),
    {
        self.event_list.push(e);
        proof {
            assert(final(self)@ =~= old(self)@.push(e@));
        }
    }

    /// Removes the events at the given positions, which must be valid, distinct and listed in
    /// ascending order; the other events keep their order. The positions are taken from the
    /// highest down, so that each removal leaves the positions still to be removed in place.
    pub fn delete_event(&mut self, delete_indices: Vec<usize>)
        requires
            strictly_ascending(delete_indices@),
            forall|i: int| 0 <= i < delete_indices.len() ==> delete_indices[i] < old(self)@.len(),
        ensures
            final(self)@ == kept(old(self)@, position_set(delete_indices@)),
    {
        let ghost s0 = self@;
        let ghost p = delete_indices@;
        let mut k: usize = delete_indices.len();
        proof {
            lemma_kept_nothing_gone(s0, position_set(p.subrange(k as int, p.len() as int)));
        }
        while k > 0
            invariant
                p == delete_indices@,
                s0 == old(self)@,
                k <= p.len(),
                strictly_ascending(p),
                forall|i: int| 0 <= i < p.len() ==> p[i] < s0.len(),
                self@ == kept(s0, position_set(p.subrange(k as int, p.len() as int))),
            decreases k,
        {
            k -= 1;
            let q = delete_indices[k];
            proof {
                lemma_position_set_step(p, k as int);
                lemma_kept_one_more(s0, position_set(p.subrange(k + 1, p.len() as int)), q as int);
            }
            let ghost before = self.event_list@;
            self.event_list.remove(q);
            proof {
                assert(self.event_list@.map_values(|e: Event| e@) =~= before.map_values(
                    |e: Event| e@,
                ).remove(q as int));
            }
        }
        proof {
            assert(p.subrange(0, p.len() as int) =~= p);
        }
    }

    /// The names of the columns of an export: date, description, category.
    pub fn export_header() -> (r: Vec<String>)
        ensures
            r@.map_values(|t: String| t@) == seq!["date"@, "description"@, "category"@],
    {
        let mut r: Vec<String> = Vec::new();
        r.push(String::from_str("date"));
        r.push(String::from_str("description"));
        r.push(String::from_str("category"));
        proof {
            assert(r@.map_values(|t: String| t@) =~= seq!["date"@, "description"@, "category"@]);
        }
        r
    }

    /// One row per event, in order: the date as `YYYY-MM-DD`, the description, the category.
    pub fn export_rows(&self) -> (r: Vec<Vec<String>>)
        ensures
            rows_text(r@) == self@.map_values(|e: EventView| row_of(e)),
            forall|i: int| 0 <= i < self@.len() ==> #[trigger] self@[i].date.wf(),
    {
        let mut rows: Vec<Vec<String>> = Vec::new();
        let mut i: usize = 0;
        while i < self.event_list.len()
            invariant
                i <= self@.len(),
                rows_text(rows@) == self@.subrange(0, i as int).map_values(
                    |e: EventView| row_of(e),
                ),
                forall|j: int| 0 <= j < i ==> #[trigger] self@[j].date.wf(),
            decreases self@.len() - i,
        {
            let e = &self.event_list[i];
            let date = e.date();
            let mut row: Vec<String> = Vec::new();
            row.push(date.to_iso_string());
            row.push(e.description());
            row.push(e.category());
            proof {
                assert(self@[i as int] == e@);
                assert(row@.map_values(|t: String| t@) =~= row_of(e@));
            }
            let ghost old_rows = rows@;
            rows.push(row);
            i += 1;
            proof {
                assert(rows_text(rows@) =~= rows_text(old_rows).push(row_of(e@)));
                assert(self@.subrange(0, i as int) =~= self@.subrange(0, i - 1).push(e@));
                assert(rows_text(rows@) =~= self@.subrange(0, i as int).map_values(
                    |e: EventView| row_of(e),
                ));
            }
        }
        proof {
            assert(self@.subrange(0, self@.len() as int) =~= self@);
        }
        rows
    }

    /// Appends one event per row, with `fallback` as the date of the rows whose date cannot be
    /// read; see `import_outcome`. A row lacking a field fails the whole import.
    pub fn import_rows_dated(&mut self, rows: Vec<Vec<String>>, fallback: Date) -> (r: Result<
        Vec<usize>,
        ImportError,
    >)
        requires
            fallback.wf(),
        ensures
            import_outcome(old(self)@, rows_text(rows@), fallback, final(self)@, r),
    {
        let ghost text = rows_text(rows@);
        let mut i: usize = 0;
        while i < rows.len()
            invariant
                i <= rows@.len(),
                text == rows_text(rows@),
                complete_below(text, i as int),
            decreases rows@.len() - i,
        {
            if rows[i].len() < 3 {
                return Err(ImportError::MissingField { row: i });
            }
            i += 1;
        }
        let ghost before = self@;
        let mut unread: Vec<usize> = Vec::new();
        let mut i: usize = 0;
        while i < rows.len()
            invariant
                i <= rows@.len(),
                fallback.wf(),
                text == rows_text(rows@),
                complete_below(text, text.len() as int),
                appended_rows(before, text.subrange(0, i as int), fallback, self@),
                positions(unread@) == unread_below(text, i as int),
            decreases rows@.len() - i,
        {
            let row = &rows[i];
            assert(text[i as int].len() >= 3);
            let mut e = Event::new_with_values(fallback, row[1].as_str(), row[2].as_str());
            let read = e.set_date(row[0].as_str());
            let ghost old_unread = unread@;
            if read.is_err() {
                unread.push(i);
                proof {
                    assert(positions(unread@) =~= positions(old_unread).push(i as int));
                }
            }
            let ghost mid = self@;
            self.add_event(e);
            proof {
                assert(e@ == event_of_row(text[i as int], fallback));
                assert(text.subrange(0, i + 1) =~= text.subrange(0, i as int).push(text[i as int]));
                assert(text.subrange(0, i + 1).map_values(
                    |row: Seq<Seq<char>>| event_of_row(row, fallback),
                ) =~= text.subrange(0, i as int).map_values(
                    |row: Seq<Seq<char>>| event_of_row(row, fallback),
                ).push(e@));
                assert forall|k: int, d: Date|
                    0 <= k < i + 1 && d.wf() && #[trigger] date_text(d) == #[trigger] text.subrange(
                        0,
                        i + 1,
                    )[k][0] implies self@[before.len() + k].date == d by {
                    if k < i {
                        assert(text.subrange(0, i + 1)[k] == text.subrange(0, i as int)[k]);
                    }
                }
            }
            i += 1;
        }
        proof {
            assert(text.subrange(0, text.len() as int) =~= text);
        }
        Ok(unread)
    }

    /// Appends one event per row, with today's date for the rows whose date cannot be read; see
    /// `import_outcome`. A row lacking a field fails the whole import.
    pub fn import_rows(&mut self, rows: Vec<Vec<String>>) -> (r: Result<Vec<usize>, ImportError>)
        ensures
            exists|fallback: Date|
                fallback.wf() && import_outcome(
                    old(self)@,
                    rows_text(rows@),
                    fallback,
                    final(self)@,
                    r,
                ),
    {
        let fallback = today();
        self.import_rows_dated(rows, fallback)
    }

    /// The text of each event at the given positions, in the order of the positions.
    pub fn render_events(&self, print_indices: Vec<usize>) -> (r: Vec<String>)
        requires
            forall|i: int| 0 <= i < print_indices.len() ==> print_indices[i] < self@.len(),
        ensures
            r@.len() == print_indices.len(),
            forall|i: int|
                0 <= i < print_indices.len() ==> #[trigger] r@[i]@ == event_text(
                    self@[print_indices[i] as int],
                ),
    {
        let mut lines: Vec<String> = Vec::new();
        let mut i: usize = 0;
        while i < print_indices.len()
            invariant
                i <= print_indices.len(),
                forall|k: int| 0 <= k < print_indices.len() ==> print_indices[k] < self@.len(),
                lines@.len() == i,
                forall|k: int|
                    0 <= k < i ==> #[trigger] lines@[k]@ == event_text(
                        self@[print_indices[k] as int],
                    ),
            decreases print_indices.len() - i,
        {
            let e = &self.event_list[print_indices[i]];
            lines.push(e.to_string());
            i += 1;
        }
        lines
    }

    /// The number of events held.
    pub fn len(&self) -> (r: usize)
        ensures
            r == self@.len(),
    {
        self.event_list.len()
    }

    /// The events, in order, for reading.
    pub fn events(&self) -> (r: &[Event])
        ensures
            r@.map_values(|e: Event| e@) == self@,
    {
        self.event_list.as_slice()
    }

    /// The positions, in ascending order, of the events that lie within the date bounds, whose
    /// description starts with `desc` when it is given, and whose category is admitted by
    /// `cate` and `excl` (see `category_admitted`).
    pub fn fetch_events(
        &self,
        start_date: Option<Date>,
        end_date: Option<Date>,
        desc: Option<String>,
        cate: Vec<Option<String>>,
        excl: bool,
    ) -> (r: Vec<usize>)
        ensures
            positions(r@) == selected(
                self@,
                FilterView {
                    start: start_date,
                    end: end_date,
                    prefix: opt_text(desc),
                    categories: opt_texts(cate@),
                    exclude: excl,
                },
            ),
    {
        let ghost f = FilterView {
            start: start_date,
            end: end_date,
            prefix: opt_text(desc),
            categories: opt_texts(cate@),
            exclude: excl,
        };
        let mut event_indices: Vec<usize> = Vec::new();
        let n = self.event_list.len();
        let mut index: usize = 0;
        while index < n
            invariant
                n == self@.len(),
                index <= n,
                f.start == start_date && f.end == end_date && f.exclude == excl,
                f.prefix == opt_text(desc) && f.categories == opt_texts(cate@),
                positions(event_indices@) == selected_below(self@, f, index as int),
            decreases n - index,
        {
            let e = &self.event_list[index];
            let date = e.date();
            let date_matches = match (start_date, end_date) {
                (Some(start), Some(end)) => if start == end {
                    date == start
                } else {
                    !date.is_before(&start) && date.is_before(&end)
                },
                (Some(start), None) => !date.is_before(&start),
                (None, Some(end)) => date.is_before(&end),
                (None, None) => true,
            };
            let desc_matches = match &desc {
                Some(prefix) => starts_with(e.description_str(), prefix.as_str()),
                None => true,
            };
            let cate_matches = if cate.len() == 0 {
                true
            } else if excl {
                !lists(&cate, e.category_ref())
            } else {
                lists(&cate, e.category_ref())
            };
            proof {
                assert(self@[index as int] == e@);
                assert(date_matches == date_admitted(e@.date, f.start, f.end));
                assert(desc_matches == description_admitted(e@.description, f.prefix));
                assert(opt_texts(cate@).len() == cate@.len());
                assert(cate_matches == category_admitted(e@.category, f.categories, f.exclude));
            }
            let ghost old_indices = event_indices@;
            if date_matches && desc_matches && cate_matches {
                event_indices.push(index);
                proof {
                    assert(positions(event_indices@) =~= positions(old_indices).push(index as int));
                }
            }
            index += 1;
        }
        event_indices
    }
}

/// Whether `text` begins with `prefix`, character by character.
fn starts_with(text: &str, prefix: &str) -> (r: bool)
    ensures
        r == has_prefix(text@, prefix@),
{
    let text_len = text.unicode_len();
    let prefix_len = prefix.unicode_len();
    if prefix_len > text_len {
        return false;
    }
    let mut i: usize = 0;
    while i < prefix_len
        invariant
            prefix_len == prefix@.len(),
            text_len == text@.len(),
            prefix_len <= text_len,
            i <= prefix_len,
            forall|j: int| 0 <= j < i ==> text@[j] == prefix@[j],
        decreases prefix_len - i,
    {
        if text.get_char(i) != prefix.get_char(i) {
            return false;
        }
        i += 1;
    }
    proof {
        assert(text@.subrange(0, prefix@.len() as int) =~= prefix@);
    }
    true
}

/// Whether `categories` holds `Some(category)`.
fn lists(categories: &Vec<Option<String>>, category: &String) -> (r: bool)
    ensures
        r == opt_texts(categories@).contains(Some(category@)),
{
    let mut i: usize = 0;
    while i < categories.len()
        invariant
            i <= categories@.len(),
            forall|j: int| 0 <= j < i ==> opt_texts(categories@)[j] != Some(category@),
        decreases categories@.len() - i,
    {
        match &categories[i] {
            Some(c) => {
                if c.eq(category) {
                    proof {
                        assert(opt_texts(categories@)[i as int] == Some(category@));
                    }
                    return true;
                }
            },
            None => {},
        }
        i += 1;
    }
    false
}

} // verus!
