//! The keys of the message search screen: editing the query, choosing the
//! type and content filters, and moving through the results.
use vstd::prelude::*;
use crate::nav::Key;
use crate::text::{chars_of, is_printable_input, printable_input_spec, push_char, string_from_range, trim, trim_seq};
use crate::ui::{ChannelFilter, SearchHasFilter};

verus! {

/// The part of the search screen that has the focus.
#[derive(Clone, Copy, PartialEq, Eq, Debug, Structural)]
pub enum SearchField {
    Input,
    TypeFilter,
    HasFilter,
    Results,
}

/// What the screen does after a key.
#[derive(Clone, Copy, PartialEq, Eq, Debug, Structural)]
pub enum SearchEffect {
    Nothing,
    /// Run the search with the current query and filters.
    Run,
    /// Open the result under the cursor.
    OpenResult,
    /// Go back to the home screen.
    Home,
}

/// The search screen's query, focus, filters and result cursor.
pub struct SearchControls {
    pub input: String,
    pub field: SearchField,
    pub type_filter: ChannelFilter,
    pub has_filter: SearchHasFilter,
    pub cursor: usize,
}

/// The type filters in the order they are offered (the voice filter is not
/// offered and counts as the first).
pub open spec fn type_pos(f: ChannelFilter) -> int {
    match f {
        ChannelFilter::Dm => 1,
        ChannelFilter::GroupDm => 2,
        ChannelFilter::PublicThread => 3,
        _ => 0,
    }
}

pub open spec fn type_at(i: int) -> ChannelFilter {
    if i == 1 {
        ChannelFilter::Dm
    } else if i == 2 {
        ChannelFilter::GroupDm
    } else if i == 3 {
        ChannelFilter::PublicThread
    } else {
        ChannelFilter::All
    }
}

pub open spec fn has_pos(f: SearchHasFilter) -> int {
    match f {
        SearchHasFilter::Any => 0,
        SearchHasFilter::Attachments => 1,
        SearchHasFilter::Links => 2,
    }
}

pub open spec fn has_at(i: int) -> SearchHasFilter {
    if i == 1 {
        SearchHasFilter::Attachments
    } else if i == 2 {
        SearchHasFilter::Links
    } else {
        SearchHasFilter::Any
    }
}

/// A filter key moving among `n` choices from `pos`: `Some(new position)`
/// when the key picks one (left, right, or a digit `1`..), `None` when it
/// does not pick.
pub open spec fn picked(key: Key, pos: int, n: int) -> Option<int> {
    if key == Key::Left || key == Key::Char('h') {
        Some(if pos > 0 { pos - 1 } else { 0 })
    } else if key == Key::Right || key == Key::Char('l') {
        if pos + 1 < n {
            Some(pos + 1)
        } else {
            None
        }
    } else {
        match key {
            Key::Char(c) => if '1' <= c && (c as int) < ('1' as int) + n {
                Some(c as int - '1' as int)
            } else {
                None
            },
            _ => None,
        }
    }
}

/// A search is rerun only for a non-blank query.
pub open spec fn rerun(input: Seq<char>) -> SearchEffect {
    if trim_seq(input).len() > 0 {
        SearchEffect::Run
    } else {
        SearchEffect::Nothing
    }
}

/// The focus, filters, cursor and effect after a key on a filter row or
/// the results (the query is unchanged there).
pub open spec fn moved(
    field: SearchField,
    type_filter: ChannelFilter,
    has_filter: SearchHasFilter,
    cursor: int,
    input: Seq<char>,
    key: Key,
    count: int,
) -> (SearchField, ChannelFilter, SearchHasFilter, int, SearchEffect) {
    match field {
        SearchField::TypeFilter => match picked(key, type_pos(type_filter), 4) {
            Some(i) => (field, type_at(i), has_filter, cursor, rerun(input)),
            None => if key == Key::Right || key == Key::Char('l') {
                (field, type_filter, has_filter, cursor, SearchEffect::Nothing)
            } else if key == Key::Enter {
                (field, type_filter, has_filter, cursor, rerun(input))
            } else if key == Key::Char('T') || key == Key::Up || key == Key::Char('k') {
                (SearchField::Input, type_filter, has_filter, cursor, SearchEffect::Nothing)
            } else if key == Key::Down || key == Key::Char('j') {
                (SearchField::HasFilter, type_filter, has_filter, cursor, SearchEffect::Nothing)
            } else if key == Key::Esc {
                (field, type_filter, has_filter, cursor, SearchEffect::Home)
            } else {
                (field, type_filter, has_filter, cursor, SearchEffect::Nothing)
            },
        },
        SearchField::HasFilter => match picked(key, has_pos(has_filter), 3) {
            Some(i) => (field, type_filter, has_at(i), cursor, rerun(input)),
            None => if key == Key::Right || key == Key::Char('l') {
                (field, type_filter, has_filter, cursor, SearchEffect::Nothing)
            } else if key == Key::Enter {
                (field, type_filter, has_filter, cursor, rerun(input))
            } else if key == Key::Char('T') {
                (SearchField::Input, type_filter, has_filter, cursor, SearchEffect::Nothing)
            } else if key == Key::Up || key == Key::Char('k') {
                (SearchField::TypeFilter, type_filter, has_filter, cursor, SearchEffect::Nothing)
            } else if key == Key::Down || key == Key::Char('j') {
                (SearchField::Results, type_filter, has_filter, cursor, SearchEffect::Nothing)
            } else if key == Key::Esc {
                (field, type_filter, has_filter, cursor, SearchEffect::Home)
            } else {
                (field, type_filter, has_filter, cursor, SearchEffect::Nothing)
            },
        },
        SearchField::Results => if key == Key::Char('T') {
            (SearchField::Input, type_filter, has_filter, cursor, SearchEffect::Nothing)
        } else if key == Key::Up || key == Key::Char('k') || key == Key::Char('K') {
            if cursor == 0 {
                (SearchField::HasFilter, type_filter, has_filter, cursor, SearchEffect::Nothing)
            } else {
                (field, type_filter, has_filter, cursor - 1, SearchEffect::Nothing)
            }
        } else if key == Key::Down || key == Key::Char('s') || key == Key::Char('S') || key
            == Key::Char('j') || key == Key::Char('J') {
            (field, type_filter, has_filter, if count > 0 && cursor + 1 < count {
                cursor + 1
            } else {
                cursor
            }, SearchEffect::Nothing)
        } else if key == Key::PageUp || key == Key::Char('u') || key == Key::Char('U') {
            (field, type_filter, has_filter, if cursor >= 20 {
                cursor - 20
            } else {
                0
            }, SearchEffect::Nothing)
        } else if key == Key::PageDown || key == Key::Char('d') || key == Key::Char('D') {
            (field, type_filter, has_filter, if count > 0 {
                if cursor + 20 < count - 1 {
                    cursor + 20
                } else {
                    count - 1
                }
            } else {
                cursor
            }, SearchEffect::Nothing)
        } else if key == Key::Enter {
            (field, type_filter, has_filter, cursor, SearchEffect::OpenResult)
        } else if key == Key::Left || key == Key::Char('h') {
            (SearchField::HasFilter, type_filter, has_filter, cursor, SearchEffect::Nothing)
        } else if key == Key::Esc {
            (field, type_filter, has_filter, cursor, SearchEffect::Home)
        } else {
            (field, type_filter, has_filter, cursor, SearchEffect::Nothing)
        },
        SearchField::Input => if key == Key::Enter {
            (SearchField::Results, type_filter, has_filter, cursor, SearchEffect::Run)
        } else if key == Key::Down {
            (SearchField::TypeFilter, type_filter, has_filter, cursor, SearchEffect::Nothing)
        } else if key == Key::Esc {
            (field, type_filter, has_filter, cursor, SearchEffect::Home)
        } else {
            (field, type_filter, has_filter, cursor, SearchEffect::Nothing)
        },
    }
}

/// The query after a key: printable characters are typed in the query box,
/// Backspace removes the last one.
pub open spec fn edited(field: SearchField, input: Seq<char>, key: Key) -> Seq<char> {
    if field == SearchField::Input {
        match key {
            Key::Char(c) => if printable_input_spec(c) {
                input.push(c)
            } else {
                input
            },
            Key::Backspace => if input.len() > 0 {
                input.drop_last()
            } else {
                input
            },
            _ => input,
        }
    } else {
        input
    }
}

fn type_index(f: ChannelFilter) -> (r: usize)
    ensures
        r as int == type_pos(f),
{
    match f {
        ChannelFilter::Dm => 1,
        ChannelFilter::GroupDm => 2,
        ChannelFilter::PublicThread => 3,
        _ => 0,
    }
}

fn type_choice(i: usize) -> (r: ChannelFilter)
    ensures
        r == type_at(i as int),
{
    if i == 1 {
        ChannelFilter::Dm
    } else if i == 2 {
        ChannelFilter::GroupDm
    } else if i == 3 {
        ChannelFilter::PublicThread
    } else {
        ChannelFilter::All
    }
}

fn has_index(f: SearchHasFilter) -> (r: usize)
    ensures
        r as int == has_pos(f),
{
    match f {
        SearchHasFilter::Any => 0,
        SearchHasFilter::Attachments => 1,
        SearchHasFilter::Links => 2,
    }
}

fn has_choice(i: usize) -> (r: SearchHasFilter)
    ensures
        r == has_at(i as int),
{
    if i == 1 {
        SearchHasFilter::Attachments
    } else if i == 2 {
        SearchHasFilter::Links
    } else {
        SearchHasFilter::Any
    }
}

fn pick(key: Key, pos: usize, n: usize) -> (r: Option<usize>)
    requires
        pos < n <= 9,
    ensures
        match r {
            Some(i) => picked(key, pos as int, n as int) == Some(i as int),
            None => picked(key, pos as int, n as int) is None,
        },
{
    if key == Key::Left || key == Key::Char('h') {
        Some(pos.saturating_sub(1))
    } else if key == Key::Right || key == Key::Char('l') {
        if pos + 1 < n {
            Some(pos + 1)
        } else {
            None
        }
    } else {
        match key {
            Key::Char(c) => {
                let u = c as u32;
                if 49 <= u && u < 49 + n as u32 {
                    Some((u - 49) as usize)
                } else {
                    None
                }
            },
            _ => None,
        }
    }
}

fn rerun_effect(input: &String) -> (e: SearchEffect)
    ensures
        e == rerun(input@),
{
    let t = trim(input.as_str());
    if t.as_str().is_empty() {
        SearchEffect::Nothing
    } else {
        SearchEffect::Run
    }
}

impl SearchControls {
    /// Handles a key on the search screen, given the number of results
    /// shown; the caller runs the search, opens the result or leaves as the
    /// effect says.
    pub fn on_key(&mut self, key: Key, count: usize) -> (e: SearchEffect)
        ensures
            final(self).input@ == edited(old(self).field, old(self).input@, key),
            ({
                let m = moved(
                    old(self).field,
                    old(self).type_filter,
                    old(self).has_filter,
                    old(self).cursor as int,
                    old(self).input@,
                    key,
                    count as int,
                );
                &&& final(self).field == m.0
                &&& final(self).type_filter == m.1
                &&& final(self).has_filter == m.2
                &&& final(self).cursor as int == m.3
                &&& e == m.4
            }),
    {
        match self.field {
            SearchField::Input => {
                match key {
                    Key::Char(c) => {
                        if is_printable_input(c) {
                            push_char(&mut self.input, c);
                        }
                        SearchEffect::Nothing
                    },
                    Key::Backspace => {
                        let v = chars_of(self.input.as_str());
                        if v.len() > 0 {
                            self.input = string_from_range(&v, 0, v.len() - 1);
                            assert(self.input@ =~= old(self).input@.drop_last());
                        }
                        SearchEffect::Nothing
                    },
                    Key::Enter => {
                        self.field = SearchField::Results;
                        SearchEffect::Run
                    },
                    Key::Down => {
                        self.field = SearchField::TypeFilter;
                        SearchEffect::Nothing
                    },
                    Key::Esc => SearchEffect::Home,
                    _ => SearchEffect::Nothing,
                }
            },
            SearchField::TypeFilter => {
                match pick(key, type_index(self.type_filter), 4) {
                    Some(i) => {
                        self.type_filter = type_choice(i);
                        rerun_effect(&self.input)
                    },
                    None => {
                        if key == Key::Right || key == Key::Char('l') {
                            SearchEffect::Nothing
                        } else if key == Key::Enter {
                            rerun_effect(&self.input)
                        } else if key == Key::Char('T') || key == Key::Up || key == Key::Char('k') {
                            self.field = SearchField::Input;
                            SearchEffect::Nothing
                        } else if key == Key::Down || key == Key::Char('j') {
                            self.field = SearchField::HasFilter;
                            SearchEffect::Nothing
                        } else if key == Key::Esc {
                            SearchEffect::Home
                        } else {
                            SearchEffect::Nothing
                        }
                    },
                }
            },
            SearchField::HasFilter => {
                match pick(key, has_index(self.has_filter), 3) {
                    Some(i) => {
                        self.has_filter = has_choice(i);
                        rerun_effect(&self.input)
                    },
                    None => {
                        if key == Key::Right || key == Key::Char('l') {
                            SearchEffect::Nothing
                        } else if key == Key::Enter {
                            rerun_effect(&self.input)
                        } else if key == Key::Char('T') {
                            self.field = SearchField::Input;
                            SearchEffect::Nothing
                        } else if key == Key::Up || key == Key::Char('k') {
                            self.field = SearchField::TypeFilter;
                            SearchEffect::Nothing
                        } else if key == Key::Down || key == Key::Char('j') {
                            self.field = SearchField::Results;
                            SearchEffect::Nothing
                        } else if key == Key::Esc {
                            SearchEffect::Home
                        } else {
                            SearchEffect::Nothing
                        }
                    },
                }
            },
            SearchField::Results => {
                if key == Key::Char('T') {
                    self.field = SearchField::Input;
                    SearchEffect::Nothing
                } else if key == Key::Up || key == Key::Char('k') || key == Key::Char('K') {
                    if self.cursor == 0 {
                        self.field = SearchField::HasFilter;
                    } else {
                        self.cursor = self.cursor - 1;
                    }
                    SearchEffect::Nothing
                } else if key == Key::Down || key == Key::Char('s') || key == Key::Char('S') || key
                    == Key::Char('j') || key == Key::Char('J') {
                    if count > 0 && self.cursor < count - 1 {
                        self.cursor = self.cursor + 1;
                    }
                    SearchEffect::Nothing
                } else if key == Key::PageUp || key == Key::Char('u') || key == Key::Char('U') {
                    self.cursor = self.cursor.saturating_sub(20);
                    SearchEffect::Nothing
                } else if key == Key::PageDown || key == Key::Char('d') || key == Key::Char('D') {
                    if count > 0 {
                        self.cursor = if self.cursor < count - 1 && count - 1 - self.cursor > 20 {
                            self.cursor + 20
                        } else {
                            count - 1
                        };
                    }
                    SearchEffect::Nothing
                } else if key == Key::Enter {
                    SearchEffect::OpenResult
                } else if key == Key::Left || key == Key::Char('h') {
                    self.field = SearchField::HasFilter;
                    SearchEffect::Nothing
                } else if key == Key::Esc {
                    SearchEffect::Home
                } else {
                    SearchEffect::Nothing
                }
            },
        }
    }
}


/// Moving through the results keeps the cursor on a result.
pub proof fn lemma_result_cursor_in_range(
    type_filter: ChannelFilter,
    has_filter: SearchHasFilter,
    cursor: int,
    input: Seq<char>,
    key: Key,
    count: int,
)
    requires
        0 <= cursor < count,
    ensures
        ({
            let m = moved(SearchField::Results, type_filter, has_filter, cursor, input, key, count);
            0 <= m.3 < count
        }),
{
}

} // verus!
