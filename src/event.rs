use crate::date::{date_text, iso_pattern, parse_date, parsed_date, today, Date};
use vstd::prelude::*;

verus! {

/// What an event holds, as mathematical values.
pub struct EventView {
    pub date: Date,
    pub description: Seq<char>,
    pub category: Seq<char>,
}

/// A date string could not be read as a `YYYY-MM-DD` date.
#[derive(Clone, Copy, Debug, PartialEq, Eq, Structural)]
pub struct DateParseError;

/// One dated entry of the log: a calendar date, a description and a category.
///
/// Descriptions and categories are stored as given, whatever their length: no cap is enforced
/// on either field.
pub struct Event {
    date: Date,
    description: String,
    category: String,
}

impl View for Event {
    type V = EventView;

    closed spec fn view(&self) -> EventView {
        EventView { date: self.date, description: self.description@, category: self.category@ }
    }
}

/// The text of an event: `<date>: <description> (<category>)`.
pub open spec fn event_text(e: EventView) -> Seq<char> {
    date_text(e.date) + ": "@ + e.description + " ("@ + e.category + ")"@
}

impl Event {
    #[verifier::type_invariant]
    spec fn date_exists(self) -> bool {
        self.date.wf()
    }

    /// An event dated today, described as "Empty event", with an empty category.
    pub fn new() -> (r: Event)
        ensures
            r@.date.wf(),
            r@.description == "Empty event"@,
            r@.category == Seq::<char>::empty(),
    {
        let e = Event::new_with_values(today(), "Empty event", "");
        proof {
            reveal_strlit("");
        }
        e
    }

    /// An event with the given date, description and category.
    pub fn new_with_values(date: Date, description: &str, category: &str) -> (r: Event)
        requires
            date.wf(),
        ensures
            r@ == (EventView { date, description: description@, category: category@ }),
    {
        Event { date, description: String::from_str(description), category: String::from_str(category) }
    }

    /// Reads `d` as a `YYYY-MM-DD` date and takes it as the event's date. When `d` cannot be
    /// read, the event keeps its date and the error is returned.
    pub fn set_date(&mut self, d: &str) -> (r: Result<(), DateParseError>)
        ensures
            match parsed_date(d@, iso_pattern()) {
                Some(nd) => r is Ok && final(self)@ == (EventView { date: nd, ..old(self)@ }),
                None => r is Err && final(self)@ == old(self)@,
            },
            forall|nd: Date| nd.wf() && #[trigger] date_text(nd) == d@ ==> final(self)@.date == nd,
    {
        proof {
            reveal_strlit("%Y-%m-%d");
        }
        match parse_date(d, "%Y-%m-%d") {
            Some(nd) => {
                self.date = nd;
                Ok(())
            },
            None => Err(DateParseError),
        }
    }

    pub fn date(&self) -> (r: Date)
        ensures
            r == self@.date,
            r.wf(),
    {
        proof {
            use_type_invariant(self);
        }
        self.date
    }

    /// Replaces the description.
    pub fn set_description(&mut self, d: &str)
        ensures
            final(self)@ == (EventView { description: d@, ..old(self)@ }),
    {
        proof {
            use_type_invariant(&*self);
        }
        self.description = String::from_str(d);
    }

    pub fn description(&self) -> (r: String)
        ensures
            r@ == self@.description,
    {
        self.description.clone()
    }

    /// Replaces the category.
    pub fn set_category(&mut self, c: &str)
        ensures
            final(self)@ == (EventView { category: c@, ..old(self)@ }),
    {
        proof {
            use_type_invariant(&*self);
        }
        self.category = String::from_str(c);
    }

    pub fn category(&self) -> (r: String)
        ensures
            r@ == self@.category,
    {
        self.category.clone()
    }

    pub(crate) fn description_str(&self) -> (r: &str)
        ensures
            r@ == self@.description,
    {
        self.description.as_str()
    }

    pub(crate) fn category_ref(&self) -> (r: &String)
        ensures
            r@ == self@.category,
    {
        &self.category
    }

    /// The event as text: `<date>: <description> (<category>)`, with the date as `YYYY-MM-DD`.
    pub fn to_string(&self) -> (r: String)
        ensures
            r@ == event_text(self@),
    {
        proof {
            use_type_invariant(self);
        }
        let mut text = self.date.to_iso_string();
        text.append(": ");
        text.append(self.description.as_str());
        text.append(" (");
        text.append(self.category.as_str());
        text.append(")");
        proof {
            assert(text@ =~= event_text(self@));
        }
        text
    }
}

} // verus!
