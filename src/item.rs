//! Normalization of raw feed entries into items, and item identity.

use vstd::prelude::*;
use crate::time_format::{date_diff, relative_phrase};
use crate::timestamp::{parse_publish_date, published_at, Timestamp};

verus! {

/// An entry as a feed document gives it: every field may be missing.
pub struct RawEntry {
    pub guid: Option<String>,
    pub title: Option<String>,
    pub link: Option<String>,
    pub pub_date: Option<String>,
}

/// A parsed feed document: its own title and link, and its entries in order.
pub struct Channel {
    pub title: String,
    pub link: String,
    pub items: Vec<RawEntry>,
}

/// Why a raw entry was dropped.
#[derive(Clone, Copy, Debug, PartialEq, Eq, Structural)]
pub enum ValidationError {
    MissingTitle,
    MissingLink,
    MissingDate,
    InvalidDate,
}

pub open spec fn present(f: Option<String>) -> bool {
    f matches Some(s) && s@.len() > 0
}

/// The outcome of normalizing a raw entry whose date text reads as `date`:
/// the first missing or unreadable field, in the order title, link, date.
pub open spec fn entry_error_given(e: RawEntry, date: Option<Timestamp>) -> Option<ValidationError> {
    if !present(e.title) {
        Some(ValidationError::MissingTitle)
    } else if !present(e.link) {
        Some(ValidationError::MissingLink)
    } else if e.pub_date is None {
        Some(ValidationError::MissingDate)
    } else if date is None {
        Some(ValidationError::InvalidDate)
    } else {
        None
    }
}

/// The date a raw entry's date text reads as, if it has one.
pub open spec fn entry_date(e: RawEntry) -> Option<Timestamp> {
    match e.pub_date {
        Some(d) => published_at(d@),
        None => None,
    }
}

/// The outcome of normalizing a raw entry.
pub open spec fn entry_error(e: RawEntry) -> Option<ValidationError> {
    entry_error_given(e, entry_date(e))
}

impl ValidationError {
    pub open spec fn text(self) -> Seq<char> {
        match self {
            ValidationError::MissingTitle => "missing title"@,
            ValidationError::MissingLink => "missing link"@,
            ValidationError::MissingDate => "missing publish date"@,
            ValidationError::InvalidDate => "invalid publish date"@,
        }
    }

    /// The reason, as reported in a warning.
    pub fn message(&self) -> (r: String)
        ensures
            r@ == self.text(),
    {
        match self {
            ValidationError::MissingTitle => "missing title".to_owned(),
            ValidationError::MissingLink => "missing link".to_owned(),
            ValidationError::MissingDate => "missing publish date".to_owned(),
            ValidationError::InvalidDate => "invalid publish date".to_owned(),
        }
    }
}

/// A normalized entry of a feed, with the feed it came from.
pub struct FeedItem {
    pub guid: Option<String>,
    pub title: String,
    pub link: String,
    pub pub_date: Timestamp,
    pub source_name: String,
    pub source_url: String,
}

/// One line of output for an item; `is_new` selects the emphasized style and
/// the "new" marker.
pub struct DisplayLine {
    pub source: String,
    pub is_new: bool,
    pub title: String,
    pub ago: String,
    pub link: String,
}

pub open spec fn opt_view(o: Option<String>) -> Option<Seq<char>> {
    match o {
        Some(s) => Some(s@),
        None => None,
    }
}

fn clone_opt(o: &Option<String>) -> (r: Option<String>)
    ensures
        opt_view(r) == opt_view(*o),
{
    match o {
        Some(s) => Some(s.clone()),
        None => None,
    }
}

impl FeedItem {
    /// Title and link are present and non-empty, and the date is in range.
    pub open spec fn wf(self) -> bool {
        self.title@.len() > 0 && self.link@.len() > 0 && self.pub_date.wf()
    }

    /// The identifier: the entry's own if it has one, else `"{title}-{link}"`.
    pub open spec fn id(self) -> Seq<char> {
        match self.guid {
            Some(g) => g@,
            None => self.title@ + "-"@ + self.link@,
        }
    }

    /// The item that a raw entry without errors becomes, given the date its
    /// date text reads as.
    pub open spec fn made_given(
        self,
        e: RawEntry,
        date: Option<Timestamp>,
        source_name: Seq<char>,
        source_url: Seq<char>,
    ) -> bool {
        &&& opt_view(self.guid) == opt_view(e.guid)
        &&& self.title@ == e.title->0@
        &&& self.link@ == e.link->0@
        &&& date == Some(self.pub_date)
        &&& self.source_name@ == source_name
        &&& self.source_url@ == source_url
    }

    /// The item that a raw entry without errors becomes.
    pub open spec fn made_from(self, e: RawEntry, source_name: Seq<char>, source_url: Seq<char>) -> bool {
        self.made_given(e, entry_date(e), source_name, source_url)
    }

    /// Normalizes a raw entry whose date text, if any, reads as `date`.
    pub fn from_parsed(
        item: &RawEntry,
        date: Option<Timestamp>,
        source_name: &str,
        source_link: &str,
    ) -> (r: Result<FeedItem, ValidationError>)
        requires
            date matches Some(t) ==> t.wf(),
        ensures
            match r {
                Ok(fi) => entry_error_given(*item, date) is None && fi.made_given(
                    *item,
                    date,
                    source_name@,
                    source_link@,
                ) && fi.wf(),
                Err(e) => entry_error_given(*item, date) == Some(e),
            },
    {
        let guid = clone_opt(&item.guid);
        let title = match &item.title {
            Some(t) if t.as_str().unicode_len() > 0 => t.clone(),
            _ => return Err(ValidationError::MissingTitle),
        };
        let link = match &item.link {
            Some(l) if l.as_str().unicode_len() > 0 => l.clone(),
            _ => return Err(ValidationError::MissingLink),
        };
        if item.pub_date.is_none() {
            return Err(ValidationError::MissingDate);
        }
        let pub_date = match date {
            Some(t) => t,
            None => return Err(ValidationError::InvalidDate),
        };
        Ok(FeedItem {
            guid,
            title,
            link,
            pub_date,
            source_name: source_name.to_owned(),
            source_url: source_link.to_owned(),
        })
    }

    /// Normalizes a raw entry of the feed named `source_name` at `source_link`.
    pub fn make(item: &RawEntry, source_name: &str, source_link: &str) -> (r: Result<
        FeedItem,
        ValidationError,
    >)
        ensures
            match r {
                Ok(fi) => entry_error(*item) is None && fi.made_from(*item, source_name@, source_link@)
                    && fi.wf(),
                Err(e) => entry_error(*item) == Some(e),
            },
    {
        let date = match &item.pub_date {
            Some(d) => parse_publish_date(d.as_str()),
            None => None,
        };
        Self::from_parsed(item, date, source_name, source_link)
    }

    /// Returns the guid of the item; without one, a pseudo guid built from
    /// title and link.
    pub fn get_id(&self) -> (r: String)
        ensures
            r@ == self.id(),
    {
        match &self.guid {
            Some(g) => g.clone(),
            None => {
                let mut s = self.title.clone();
                s.append("-");
                s.append(self.link.as_str());
                s
            },
        }
    }

    /// The line that shows this item at time `now`.
    pub open spec fn line_for(self, l: DisplayLine, now: Timestamp, already_seen: bool) -> bool {
        &&& l.source@ == self.source_name@
        &&& l.is_new == !already_seen
        &&& l.title@ == self.title@
        &&& l.ago@ == relative_phrase(now.secs_since(self.pub_date))
        &&& l.link@ == self.link@
    }

    /// Builds the line that shows this item at time `now`.
    pub fn show(&self, now: &Timestamp, already_seen: bool) -> (r: DisplayLine)
        requires
            self.wf(),
            now.wf(),
        ensures
            self.line_for(r, *now, already_seen),
    {
        DisplayLine {
            source: self.source_name.clone(),
            is_new: !already_seen,
            title: self.title.clone(),
            ago: date_diff(now.seconds_since(&self.pub_date)),
            link: self.link.clone(),
        }
    }
}

impl DisplayLine {
    pub open spec fn plain(self) -> Seq<char> {
        let head = if self.is_new { self.source@ + " (*new*)"@ } else { self.source@ };
        head + ": "@ + self.title@ + " ("@ + self.ago@ + ") "@ + self.link@
    }

    /// The line without styling: `{source}[ (*new*)]: {title} ({ago}) {link}`.
    pub fn text(&self) -> (r: String)
        ensures
            r@ == self.plain(),
    {
        let mut s = self.source.clone();
        if self.is_new {
            s.append(" (*new*)");
        }
        s.append(": ");
        s.append(self.title.as_str());
        s.append(" (");
        s.append(self.ago.as_str());
        s.append(") ");
        s.append(self.link.as_str());
        s
    }
}

} // verus!

verus! {

/// The entries of `es` that normalize without error, in order.
pub open spec fn kept(es: Seq<RawEntry>) -> Seq<RawEntry>
    decreases es.len(),
{
    if es.len() == 0 {
        Seq::empty()
    } else {
        let k = kept(es.drop_last());
        if entry_error(es.last()) is None {
            k.push(es.last())
        } else {
            k
        }
    }
}

/// One error for each entry of `es` that fails to normalize, in order.
pub open spec fn errors_of(es: Seq<RawEntry>) -> Seq<ValidationError>
    decreases es.len(),
{
    if es.len() == 0 {
        Seq::empty()
    } else {
        let k = errors_of(es.drop_last());
        match entry_error(es.last()) {
            Some(e) => k.push(e),
            None => k,
        }
    }
}

/// Normalizes every entry of a feed: the items made from the entries that are
/// valid, in order, and the reason for each entry dropped, in order.
pub fn read_feed_items(channel: &Channel) -> (r: (Vec<FeedItem>, Vec<ValidationError>))
    ensures
        r.0@.len() == kept(channel.items@).len(),
        forall|i: int|
            0 <= i < r.0@.len() ==> (#[trigger] r.0@[i]).made_from(
                kept(channel.items@)[i],
                channel.title@,
                channel.link@,
            ) && r.0@[i].wf(),
        r.1@ == errors_of(channel.items@),
{
    let mut items: Vec<FeedItem> = Vec::new();
    let mut errors: Vec<ValidationError> = Vec::new();
    let mut i: usize = 0;
    while i < channel.items.len()
        invariant
            i <= channel.items@.len(),
            items@.len() == kept(channel.items@.take(i as int)).len(),
            forall|k: int|
                0 <= k < items@.len() ==> (#[trigger] items@[k]).made_from(
                    kept(channel.items@.take(i as int))[k],
                    channel.title@,
                    channel.link@,
                ) && items@[k].wf(),
            errors@ == errors_of(channel.items@.take(i as int)),
        decreases channel.items@.len() - i,
    {
        let ghost pre = channel.items@.take(i as int);
        let ghost next = channel.items@.take(i + 1);
        assert(next.drop_last() =~= pre);
        assert(next.last() == channel.items@[i as int]);
        match FeedItem::make(&channel.items[i], channel.title.as_str(), channel.link.as_str()) {
            Ok(fi) => {
                items.push(fi);
            },
            Err(e) => {
                errors.push(e);
            },
        }
        i = i + 1;
    }
    assert(channel.items@.take(i as int) =~= channel.items@);
    (items, errors)
}

} // verus!
