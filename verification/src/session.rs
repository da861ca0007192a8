//! The editor's completion session: typing `#` opens it, and it closes when
//! the cursor moves back over the `#` or a space or closing bracket is typed.
use vstd::prelude::*;
use crate::intel::char_at;
use crate::text::{char_is_whitespace, chars_of, is_white_space};

verus! {

/// What the editor does with its completion list after a change of the text.
#[derive(Debug, Clone, Copy, PartialEq, Eq, Structural)]
pub enum SessionAction {
    /// No session is open: the list stays as it is.
    Unchanged,
    /// The session ends: the list is cleared.
    Close,
    /// The session goes on: the list is fetched again for the new cursor.
    Fetch,
}

/// A completion session: the character index of the `#` that opened it, if
/// one is open, and the completion list it shows. The list is empty whenever
/// no session is open.
pub struct CompletionSession<T> {
    trigger_index: Option<usize>,
    completions: Vec<T>,
}

/// A character that ends a session when it is typed.
pub open spec fn closes_session(c: char) -> bool {
    is_white_space(c) || c == ']' || c == ')' || c == '}'
}

/// The session after a change that leaves the text `cs` and the cursor at
/// character index `cursor`, and what happens to the completion list.
pub open spec fn session_step(trigger: Option<usize>, cs: Seq<char>, cursor: usize) -> (
    Option<usize>,
    SessionAction,
) {
    let t = if cursor > 0 && char_at(cs, cursor - 1) == Some('#') {
        Some((cursor - 1) as usize)
    } else {
        trigger
    };
    match t {
        None => (None, SessionAction::Unchanged),
        Some(start) => {
            let close = cursor <= start || match char_at(cs, cursor - 1) {
                Some(c) => closes_session(c),
                None => false,
            };
            if close {
                (None, SessionAction::Close)
            } else {
                (t, SessionAction::Fetch)
            }
        },
    }
}

fn ends_session(c: char) -> (r: bool)
    ensures
        r == closes_session(c),
{
    char_is_whitespace(c) || c == ']' || c == ')' || c == '}'
}

impl<T> CompletionSession<T> {
    #[verifier::type_invariant]
    spec fn list_only_while_open(self) -> bool {
        self.trigger_index is None ==> self.completions.len() == 0
    }

    /// The `#` of the open session, if one is open.
    pub closed spec fn trigger(self) -> Option<usize> {
        self.trigger_index
    }

    /// The completion list.
    pub closed spec fn list(self) -> Seq<T> {
        self.completions@
    }

    /// No session open, and no completions.
    pub fn new() -> (s: Self)
        ensures
            s.trigger() is None,
            s.list().len() == 0,
    {
        CompletionSession { trigger_index: None, completions: Vec::new() }
    }

    /// The character index of the `#` of the open session, if one is open.
    pub fn trigger_index(&self) -> (r: Option<usize>)
        ensures
            r == self.trigger(),
    {
        self.trigger_index
    }

    /// The completion list; empty when no session is open.
    pub fn completions(&self) -> (r: &Vec<T>)
        ensures
            r@ == self.list(),
            self.trigger() is None ==> r@.len() == 0,
    {
        proof {
            use_type_invariant(self);
        }
        &self.completions
    }

    /// Updates the session after the text changed to `content` with the
    /// cursor at character index `cursor`, and says what to do with the list:
    /// when the session ends the list is cleared here; otherwise it is kept
    /// (a `Fetch` asks for `set_completions`).
    pub fn on_text_change(&mut self, content: &str, cursor: usize) -> (a: SessionAction)
        ensures
            (final(self).trigger(), a) == session_step(old(self).trigger(), content@, cursor),
            a == SessionAction::Close ==> final(self).list().len() == 0,
            a != SessionAction::Close ==> final(self).list() == old(self).list(),
            final(self).trigger() is None ==> final(self).list().len() == 0,
    {
        proof {
            use_type_invariant(&*self);
        }
        let chars = chars_of(content);
        if cursor > 0 && cursor - 1 < chars.len() && chars[cursor - 1] == '#' {
            self.trigger_index = Some(cursor - 1);
        }
        let a = match self.trigger_index {
            None => SessionAction::Unchanged,
            Some(start) => {
                let mut close = cursor <= start;
                if !close && cursor > start && cursor - 1 < chars.len() {
                    if ends_session(chars[cursor - 1]) {
                        close = true;
                    }
                }
                if close {
                    self.completions = Vec::new();
                    self.trigger_index = None;
                    SessionAction::Close
                } else {
                    SessionAction::Fetch
                }
            },
        };
        proof {
            use_type_invariant(&*self);
        }
        a
    }

    /// Shows a freshly fetched completion list while a session is open; with
    /// no session open the list stays empty.
    pub fn set_completions(&mut self, list: Vec<T>)
        ensures
            final(self).trigger() == old(self).trigger(),
            old(self).trigger() is Some ==> final(self).list() == list@,
            old(self).trigger() is None ==> final(self).list().len() == 0,
    {
        proof {
            use_type_invariant(&*self);
        }
        if self.trigger_index.is_some() {
            self.completions = list;
        }
    }

    /// Ends the session and clears the list (an item was picked, or the list
    /// was dismissed).
    pub fn close(&mut self)
        ensures
            final(self).trigger() is None,
            final(self).list().len() == 0,
    {
        self.completions = Vec::new();
        self.trigger_index = None;
    }
}

/// Typing `#` always opens a session at the `#`, whatever the state before.
pub proof fn lemma_hash_opens_session(trigger: Option<usize>, cs: Seq<char>, cursor: usize)
    requires
        0 < cursor <= cs.len(),
        cs[cursor - 1] == '#',
    ensures
        session_step(trigger, cs, cursor) == (Some((cursor - 1) as usize), SessionAction::Fetch),
{
}

/// An open session whose `#` is before the cursor stays open, with the same
/// `#`, while the character before the cursor is not a space or a closing
/// bracket (nor another `#`, which restarts it there).
pub proof fn lemma_session_continues(start: usize, cs: Seq<char>, cursor: usize)
    requires
        start < cursor <= cs.len(),
        cs[cursor - 1] != '#',
        !closes_session(cs[cursor - 1]),
    ensures
        session_step(Some(start), cs, cursor) == (Some(start), SessionAction::Fetch),
{
}

/// Moving the cursor back onto or before the `#` closes the session.
pub proof fn lemma_session_closes_before_trigger(start: usize, cs: Seq<char>, cursor: usize)
    requires
        cursor <= start,
        !(cursor > 0 && char_at(cs, cursor - 1) == Some('#')),
    ensures
        session_step(Some(start), cs, cursor) == (None::<usize>, SessionAction::Close),
{
}

} // verus!
