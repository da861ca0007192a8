//! The toolbar's preview dropdowns (font family and font size): opening one
//! remembers the value shown, closing it without a choice goes back to that
//! value, and a choice applies the chosen value.
use vstd::prelude::*;

verus! {

/// What happens to a dropdown.
pub enum DropdownEvent {
    /// The dropdown was opened.
    Opened,
    /// The dropdown was closed without a choice (a click elsewhere).
    Closed,
    /// A value was picked from the list.
    Chosen(String),
}

/// A dropdown: whether it is open, the value it shows, the value to go back
/// to when it closes without a choice, and whether a choice forgets that value
/// (the size picker does; the family picker keeps it).
pub struct Dropdown {
    pub open: bool,
    pub current: String,
    pub original: Option<String>,
    pub commits_on_choice: bool,
}

/// A dropdown as plain values.
pub struct DropdownView {
    pub open: bool,
    pub current: Seq<char>,
    pub original: Option<Seq<char>>,
    pub commits_on_choice: bool,
}

/// An event as plain values: `None` for opening, `Some(None)` for closing
/// without a choice, `Some(Some(v))` for choosing `v`.
pub open spec fn event_view(e: DropdownEvent) -> Option<Option<Seq<char>>> {
    match e {
        DropdownEvent::Opened => None,
        DropdownEvent::Closed => Some(None),
        DropdownEvent::Chosen(v) => Some(Some(v@)),
    }
}

impl Dropdown {
    pub open spec fn view(&self) -> DropdownView {
        DropdownView {
            open: self.open,
            current: self.current@,
            original: match self.original {
                Some(o) => Some(o@),
                None => None,
            },
            commits_on_choice: self.commits_on_choice,
        }
    }
}

/// The dropdown after an event, and the value to apply to the document, if
/// any: opening remembers the value shown; closing without a choice goes back
/// to the remembered value and applies it (nothing when none is remembered);
/// a choice shows and applies the chosen value and closes the dropdown.
pub open spec fn dropdown_step(d: DropdownView, e: Option<Option<Seq<char>>>) -> (DropdownView, Option<Seq<char>>) {
    match e {
        None => (DropdownView { open: true, original: Some(d.current), ..d }, None),
        Some(None) => match d.original {
            Some(o) => (DropdownView { open: false, current: o, original: None, ..d }, Some(o)),
            None => (DropdownView { open: false, ..d }, None),
        },
        Some(Some(v)) => (
            DropdownView {
                open: false,
                current: v,
                original: if d.commits_on_choice {
                    None
                } else {
                    d.original
                },
                ..d
            },
            Some(v),
        ),
    }
}

impl Dropdown {
    /// A closed dropdown showing `initial`.
    pub fn new(initial: String, commits_on_choice: bool) -> (d: Self)
        ensures
            d.view() == (DropdownView {
                open: false,
                current: initial@,
                original: None,
                commits_on_choice,
            }),
    {
        Dropdown { open: false, current: initial, original: None, commits_on_choice }
    }

    /// Applies an event; returns the value to apply to the document, if any.
    pub fn step(&mut self, event: DropdownEvent) -> (r: Option<String>)
        ensures
            final(self).view() == dropdown_step(old(self).view(), event_view(event)).0,
            (match r {
                Some(s) => Some(s@),
                None => None,
            }) == dropdown_step(old(self).view(), event_view(event)).1,
    {
        match event {
            DropdownEvent::Opened => {
                self.open = true;
                self.original = Some(self.current.clone());
                None
            },
            DropdownEvent::Closed => {
                self.open = false;
                match self.original.take() {
                    Some(o) => {
                        self.current = o.clone();
                        Some(o)
                    },
                    None => None,
                }
            },
            DropdownEvent::Chosen(v) => {
                self.open = false;
                self.current = v.clone();
                if self.commits_on_choice {
                    self.original = None;
                }
                Some(v)
            },
        }
    }
}

/// Opening a dropdown and closing it without a choice shows and applies the
/// value it showed before, whatever was previewed in between.
pub proof fn lemma_close_without_choice_reverts(d: DropdownView)
    ensures
        ({
            let (after, applied) = dropdown_step(dropdown_step(d, None).0, Some(None));
            &&& after.current == d.current
            &&& !after.open
            &&& after.original is None
            &&& applied == Some(d.current)
        }),
{
}

/// A committing dropdown keeps a chosen value when it is closed afterwards.
pub proof fn lemma_choice_is_kept(d: DropdownView, v: Seq<char>)
    requires
        d.commits_on_choice,
    ensures
        ({
            let chosen = dropdown_step(dropdown_step(d, None).0, Some(Some(v)));
            let closed = dropdown_step(chosen.0, Some(None));
            &&& chosen.1 == Some(v)
            &&& closed.0.current == v
            &&& closed.1 is None
        }),
{
}

} // verus!
