//! The session record: which file is current, which processed result
//! was shown last, and which filter produced it.  Three triggers mutate
//! it: picking a file, applying a filter, and resetting the view.

use vstd::prelude::*;

verus! {

/// The in-memory session state; it lives for the process and is never
/// persisted.
pub struct Session {
    /// The file the user picked.
    pub original: Option<String>,
    /// The processed file shown last, if any.
    pub last_processed: Option<String>,
    /// The filter that produced `last_processed`.
    pub last_filter: Option<String>,
}

impl Session {
    /// A fresh session: nothing picked, nothing processed.
    pub fn new() -> (s: Session)
        ensures
            s.original.is_none(),
            s.last_processed.is_none(),
            s.last_filter.is_none(),
    {
        Session { original: None, last_processed: None, last_filter: None }
    }

    /// Picking a file makes it current and forgets every processed
    /// result.
    pub fn select_file(&mut self, path: String)
        ensures
            final(self).original == Some(path),
            final(self).last_processed.is_none(),
            final(self).last_filter.is_none(),
    {
        self.original = Some(path);
        self.last_processed = None;
        self.last_filter = None;
    }

    /// The path a new application of `filter` starts from: the last
    /// processed file when the same filter is applied again (chaining),
    /// the original otherwise; nothing while no file is picked.
    pub fn source_for(&self, filter: &String) -> (r: Option<String>)
        ensures
            self.original.is_none() ==> r.is_none(),
            self.original.is_some() ==> match r {
                None => false,
                Some(src) => {
                    if self.last_processed.is_some() && self.last_filter.is_some()
                        && self.last_filter.unwrap()@ == filter@ {
                        src == self.last_processed.unwrap()
                    } else {
                        src == self.original.unwrap()
                    }
                },
            },
    {
        match &self.original {
            None => None,
            Some(orig) => {
                match (&self.last_processed, &self.last_filter) {
                    (Some(processed), Some(last)) => {
                        if *last == *filter {
                            Some(processed.clone())
                        } else {
                            Some(orig.clone())
                        }
                    },
                    _ => Some(orig.clone()),
                }
            },
        }
    }

    /// Records what an application returned.  A result other than the
    /// path handed in is a new processed file; the path handed back
    /// unchanged signals a silent failure and leaves the record alone.
    pub fn record_result(&mut self, source: &String, result: String, filter: &String)
        ensures
            result@ != source@ ==> {
                &&& final(self).last_processed == Some(result)
                &&& final(self).last_filter.is_some()
                &&& final(self).last_filter.unwrap()@ == filter@
                &&& final(self).original == old(self).original
            },
            result@ == source@ ==> *final(self) == *old(self),
    {
        if !(result == *source) {
            self.last_processed = Some(result);
            self.last_filter = Some(filter.clone());
        }
    }

    /// Resetting shows the original again and clears the chaining
    /// state; the picked file stays picked.
    pub fn reset(&mut self)
        ensures
            final(self).original == old(self).original,
            final(self).last_processed == old(self).original,
            final(self).last_filter.is_none(),
    {
        self.last_processed = match &self.original {
            None => None,
            Some(orig) => Some(orig.clone()),
        };
        self.last_filter = None;
    }
}

} // verus!
