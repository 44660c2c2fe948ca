//! The state of the interactive view: the rules that the query retains, the page shown, the
//! rule selected on it, and what a key does to them.

use vstd::prelude::*;
use crate::application::rule_service::{clone_rules, filter_rules, matching};
use crate::domain::models::{EnrichedRule, EnrichedView, rule_views};
use crate::text::push_char;

verus! {

/// Number of rules on a full page.
pub const ITEMS_PER_PAGE: usize = 50;

/// Whether keys edit the query or move through the list.
#[derive(Clone, Copy, Debug, PartialEq, Eq)]
pub enum InputMode {
    Editing,
    Normal,
}

/// A key, as far as the view tells keys apart.
#[derive(Clone, Copy, Debug, PartialEq, Eq)]
pub enum Key {
    Char(char),
    Esc,
    Enter,
    Backspace,
    Up,
    Down,
    Left,
    Right,
    Other,
}

/// What the event loop does after a key.
#[derive(Clone, Copy, Debug, PartialEq, Eq)]
pub enum Action {
    /// Draw again and wait for the next key.
    Continue,
    /// Leave the view.
    Quit,
}

/// The state of the view.
pub struct App {
    all_rules: Vec<EnrichedRule>,
    filtered_rules: Vec<EnrichedRule>,
    current_page: usize,
    selected: Option<usize>,
    search_query: String,
    input_mode: InputMode,
}

/// What an [`App`] holds.
pub ghost struct AppView {
    /// All rules, in the order in which they are shown without a query.
    pub all_rules: Seq<EnrichedView>,
    /// The rules that the query retains.
    pub filtered_rules: Seq<EnrichedView>,
    /// The page shown, counted from 0.
    pub current_page: usize,
    /// The place on the page of the rule selected, counted from 0.
    pub selected: Option<usize>,
    /// The query as typed.
    pub search_query: Seq<char>,
    /// Whether keys edit the query.
    pub input_mode: InputMode,
}

/// The number of pages that `len` rules fill; the last may be partly filled.
pub open spec fn page_count(len: int) -> int {
    (len + ITEMS_PER_PAGE - 1) / (ITEMS_PER_PAGE as int)
}

/// The number of rules on page `page` of `len` rules.
pub open spec fn count_on_page(len: int, page: int) -> int {
    if len - page * ITEMS_PER_PAGE >= ITEMS_PER_PAGE {
        ITEMS_PER_PAGE as int
    } else if len - page * ITEMS_PER_PAGE >= 0 {
        len - page * ITEMS_PER_PAGE
    } else {
        0
    }
}

/// The first place of the list if it is not empty.
pub open spec fn first_if_any(len: int) -> Option<usize> {
    if len > 0 {
        Some(0usize)
    } else {
        None
    }
}

/// The state after the selection has moved down one rule, if there is one below on the page.
pub open spec fn after_next(v: AppView) -> AppView {
    match v.selected {
        Some(s) if s + 1 < count_on_page(v.filtered_rules.len() as int, v.current_page as int) => AppView {
            selected: Some((s + 1) as usize),
            ..v
        },
        _ => v,
    }
}

/// The state after the selection has moved up one rule, if there is one above on the page.
pub open spec fn after_previous(v: AppView) -> AppView {
    match v.selected {
        Some(s) if s > 0 => AppView { selected: Some((s - 1) as usize), ..v },
        _ => v,
    }
}

/// The state after a move to the next page, if there is one: its first rule is selected.
pub open spec fn after_next_page(v: AppView) -> AppView {
    if v.current_page + 1 < page_count(v.filtered_rules.len() as int) {
        AppView { current_page: (v.current_page + 1) as usize, selected: Some(0usize), ..v }
    } else {
        v
    }
}

/// The state after a move to the page before, if there is one: its first rule is selected.
pub open spec fn after_previous_page(v: AppView) -> AppView {
    if v.current_page > 0 {
        AppView { current_page: (v.current_page - 1) as usize, selected: Some(0usize), ..v }
    } else {
        v
    }
}

/// The state after the query has become `query`: the rules that the query retains, which
/// are all rules for the empty query, from the first page on, with the first of them
/// selected.
pub open spec fn after_search(v: AppView, query: Seq<char>) -> AppView {
    let kept = matching(v.all_rules, query);
    AppView {
        all_rules: v.all_rules,
        filtered_rules: kept,
        current_page: 0,
        selected: first_if_any(kept.len() as int),
        search_query: query,
        input_mode: v.input_mode,
    }
}

/// With an empty query every rule is shown.
pub proof fn lemma_empty_search_shows_all(v: AppView)
    ensures
        after_search(v, Seq::<char>::empty()).filtered_rules == v.all_rules,
{
}

/// The state after a key. While the list is browsed, the arrow keys move the selection and
/// turn the pages, `s` and `/` start editing the query, and `q` and Esc leave the state as
/// it is. While the query is edited, a character is added to it, Backspace takes its last
/// character away, and Esc and Enter go back to browsing.
pub open spec fn after_key(v: AppView, key: Key) -> AppView {
    match v.input_mode {
        InputMode::Normal => match key {
            Key::Char(c) => if c == 's' || c == '/' {
                AppView { input_mode: InputMode::Editing, ..v }
            } else {
                v
            },
            Key::Down => after_next(v),
            Key::Up => after_previous(v),
            Key::Right => after_next_page(v),
            Key::Left => after_previous_page(v),
            _ => v,
        },
        InputMode::Editing => match key {
            Key::Esc => AppView { input_mode: InputMode::Normal, ..v },
            Key::Enter => AppView { input_mode: InputMode::Normal, ..v },
            Key::Backspace => after_search(
                v,
                if v.search_query.len() > 0 {
                    v.search_query.drop_last()
                } else {
                    v.search_query
                },
            ),
            Key::Char(c) => after_search(v, v.search_query.push(c)),
            _ => v,
        },
    }
}

/// Whether a key ends the view: `q` or Esc while the list is browsed.
pub open spec fn quits(v: AppView, key: Key) -> bool {
    v.input_mode == InputMode::Normal && (key == Key::Esc || key == Key::Char('q'))
}

impl View for App {
    type V = AppView;

    closed spec fn view(&self) -> AppView {
        AppView {
            all_rules: rule_views(self.all_rules@),
            filtered_rules: rule_views(self.filtered_rules@),
            current_page: self.current_page,
            selected: self.selected,
            search_query: self.search_query@,
            input_mode: self.input_mode,
        }
    }
}

impl App {
    #[verifier::type_invariant]
    spec fn well_formed(self) -> bool {
        &&& self.current_page * ITEMS_PER_PAGE <= self.filtered_rules.len()
        &&& self.current_page > 0 ==> self.current_page * ITEMS_PER_PAGE < self.filtered_rules.len()
        &&& match self.selected {
            Some(s) => self.current_page * ITEMS_PER_PAGE + s < self.filtered_rules.len(),
            None => true,
        }
    }

    /// The view over `rules`: all of them retained, the first page shown, the first rule
    /// selected if there is one, the query empty and not being edited.
    pub fn new(rules: Vec<EnrichedRule>) -> (app: Self)
        ensures
            app@ == (AppView {
                all_rules: rule_views(rules@),
                filtered_rules: rule_views(rules@),
                current_page: 0,
                selected: first_if_any(rules@.len() as int),
                search_query: Seq::empty(),
                input_mode: InputMode::Normal,
            }),
    {
        let all_rules = clone_rules(&rules);
        let selected = if rules.len() > 0 {
            Some(0)
        } else {
            None
        };
        App {
            all_rules,
            filtered_rules: rules,
            current_page: 0,
            selected,
            search_query: String::new(),
            input_mode: InputMode::Normal,
        }
    }

    /// The rules that the query retains.
    pub fn filtered_rules(&self) -> (rules: &Vec<EnrichedRule>)
        ensures
            rule_views(rules@) == self@.filtered_rules,
    {
        &self.filtered_rules
    }

    /// The page shown, counted from 0.
    pub fn current_page(&self) -> (page: usize)
        ensures
            page == self@.current_page,
    {
        self.current_page
    }

    /// The place on the page of the rule selected.
    pub fn selected(&self) -> (selected: Option<usize>)
        ensures
            selected == self@.selected,
    {
        self.selected
    }

    /// The query as typed.
    pub fn search_query(&self) -> (query: &str)
        ensures
            query@ == self@.search_query,
    {
        self.search_query.as_str()
    }

    /// Whether keys edit the query.
    pub fn input_mode(&self) -> (mode: InputMode)
        ensures
            mode == self@.input_mode,
    {
        self.input_mode
    }

    /// The number of pages, which is 1 where no rule is retained.
    pub fn total_pages(&self) -> (pages: usize)
        ensures
            self@.filtered_rules.len() > 0 ==> pages == page_count(
                self@.filtered_rules.len() as int,
            ),
            self@.filtered_rules.len() == 0 ==> pages == 1,
    {
        let len = self.filtered_rules.len();
        if len == 0 {
            1
        } else {
            (len - 1) / ITEMS_PER_PAGE + 1
        }
    }

    /// The bounds in the retained rules of the page shown.
    pub fn page_bounds(&self) -> (bounds: (usize, usize))
        ensures
            bounds.0 == self@.current_page * ITEMS_PER_PAGE,
            bounds.1 == bounds.0 + count_on_page(
                self@.filtered_rules.len() as int,
                self@.current_page as int,
            ),
            bounds.0 <= bounds.1 <= self@.filtered_rules.len(),
    {
        proof {
            use_type_invariant(self);
        }
        let len = self.filtered_rules.len();
        let start = self.current_page * ITEMS_PER_PAGE;
        let end = if len - start >= ITEMS_PER_PAGE {
            start + ITEMS_PER_PAGE
        } else {
            len
        };
        (start, end)
    }

    /// The rule selected, if one is.
    pub fn selected_rule(&self) -> (rule: Option<&EnrichedRule>)
        ensures
            match rule {
                Some(found) => self@.selected is Some && self@.current_page * ITEMS_PER_PAGE
                    + self@.selected->0 < self@.filtered_rules.len() && found@
                    == self@.filtered_rules[self@.current_page * ITEMS_PER_PAGE
                    + self@.selected->0],
                None => self@.selected is None,
            },
    {
        proof {
            use_type_invariant(self);
        }
        match self.selected {
            Some(s) => Some(&self.filtered_rules[self.current_page * ITEMS_PER_PAGE + s]),
            None => None,
        }
    }

    /// Moves the selection down one rule: see [`after_next`].
    pub fn next(&mut self)
        ensures
            final(self)@ == after_next(old(self)@),
    {
        proof {
            use_type_invariant(&*self);
        }
        if let Some(s) = self.selected {
            let (start, end) = self.page_bounds();
            if s + 1 < end - start {
                self.selected = Some(s + 1);
            }
        }
    }

    /// Moves the selection up one rule: see [`after_previous`].
    pub fn previous(&mut self)
        ensures
            final(self)@ == after_previous(old(self)@),
    {
        proof {
            use_type_invariant(&*self);
        }
        if let Some(s) = self.selected {
            if s > 0 {
                self.selected = Some(s - 1);
            }
        }
    }

    /// Turns to the next page: see [`after_next_page`].
    pub fn next_page(&mut self)
        ensures
            final(self)@ == after_next_page(old(self)@),
    {
        proof {
            use_type_invariant(&*self);
        }
        let len = self.filtered_rules.len();
        if len > 0 && self.current_page < (len - 1) / ITEMS_PER_PAGE {
            self.selected = Some(0);
            self.current_page = self.current_page + 1;
        }
    }

    /// Turns to the page before: see [`after_previous_page`].
    pub fn previous_page(&mut self)
        ensures
            final(self)@ == after_previous_page(old(self)@),
    {
        proof {
            use_type_invariant(&*self);
        }
        if self.current_page > 0 {
            self.selected = Some(0);
            self.current_page = self.current_page - 1;
        }
    }

    /// Retains the rules that the query, as it stands, finds: see [`after_search`].
    pub fn update_search(&mut self)
        ensures
            final(self)@ == after_search(old(self)@, old(self)@.search_query),
    {
        proof {
            use_type_invariant(&*self);
        }
        let kept = filter_rules(&self.all_rules, self.search_query.as_str());
        let any = kept.len() > 0;
        self.selected = None;
        self.current_page = 0;
        self.filtered_rules = kept;
        if any {
            self.selected = Some(0);
        }
    }

    /// Takes a key: see [`after_key`] for what it does to the state, and [`quits`] for
    /// whether it ends the view.
    pub fn handle_key(&mut self, key: Key) -> (action: Action)
        ensures
            final(self)@ == after_key(old(self)@, key),
            action == (if quits(old(self)@, key) {
                Action::Quit
            } else {
                Action::Continue
            }),
    {
        proof {
            use_type_invariant(&*self);
        }
        match self.input_mode {
            InputMode::Normal => match key {
                Key::Char(c) => {
                    if c == 'q' {
                        return Action::Quit;
                    }
                    if c == 's' || c == '/' {
                        self.input_mode = InputMode::Editing;
                    }
                },
                Key::Esc => {
                    return Action::Quit;
                },
                Key::Down => self.next(),
                Key::Up => self.previous(),
                Key::Right => self.next_page(),
                Key::Left => self.previous_page(),
                _ => {},
            },
            InputMode::Editing => match key {
                Key::Esc => {
                    self.input_mode = InputMode::Normal;
                },
                Key::Enter => {
                    self.input_mode = InputMode::Normal;
                },
                Key::Backspace => {
                    let n = self.search_query.as_str().unicode_len();
                    if n > 0 {
                        let shorter = self.search_query.as_str().substring_char(0, n - 1).to_owned();
                        assert(shorter@ =~= self.search_query@.drop_last());
                        self.search_query = shorter;
                    }
                    self.update_search();
                },
                Key::Char(c) => {
                    let mut longer = self.search_query.clone();
                    push_char(&mut longer, c);
                    self.search_query = longer;
                    self.update_search();
                },
                _ => {},
            },
        }
        Action::Continue
    }
}

} // verus!
