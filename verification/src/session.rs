//! The interactive session: query editing, cursor movement and the
//! input state machine.
//!
//! An [`App`] owns the immutable candidate pool, the live query, the
//! ranked view and the cursor.  It consumes abstract input events and
//! either stays active or terminates with a confirmed selection or a
//! cancellation.  Every query mutation re-ranks the view and resets the
//! cursor to the top; cursor moves wrap around at the list boundaries.
//! A session must never be started on an empty pool.

use crate::ranking::is_ranked_view;
use crate::ranking::rerank;
use crate::scorer::str_chars;
use vstd::prelude::*;

verus! {

/// One decoded input event, as the embedding application hands it in.
pub enum InputEvent {
    /// A printable character was typed: append it to the query.
    Char(char),
    /// Remove the last query character, if any.
    DeleteChar,
    /// Move the cursor up one entry, wrapping at the top.
    CursorUp,
    /// Move the cursor down one entry, wrapping at the bottom.
    CursorDown,
    /// Terminate with the candidate under the cursor selected.
    Confirm,
    /// Terminate without a selection.
    Cancel,
    /// Anything else: ignored, no state change.
    Other,
}

/// The terminal value of a session: whether the user confirmed, and the
/// selected candidate if so.
pub struct SessionResult {
    /// True when the session ended by confirmation rather than cancel.
    pub confirmed: bool,
    /// The candidate under the cursor at confirmation time.
    pub candidate: Option<String>,
}

/// The cursor after one downward move in a view of `n` entries.
pub open spec fn down_step(c: int, n: int) -> int {
    (c + 1) % n
}

/// The cursor after one upward move in a view of `n` entries.
pub open spec fn up_step(c: int, n: int) -> int {
    (c - 1 + n) % n
}

/// The cursor after `k` downward moves from `c`.
pub open spec fn down_iter(c: int, n: int, k: nat) -> int
    decreases k,
{
    if k == 0 {
        c
    } else {
        down_step(down_iter(c, n, (k - 1) as nat), n)
    }
}

/// The cursor after `k` upward moves from `c`.
pub open spec fn up_iter(c: int, n: int, k: nat) -> int
    decreases k,
{
    if k == 0 {
        c
    } else {
        up_step(up_iter(c, n, (k - 1) as nat), n)
    }
}

/// The two step functions written without `%`: a downward move adds one
/// and wraps at the bottom, an upward move subtracts one and wraps at
/// the top.
pub proof fn lemma_step_values(c: int, n: int)
    requires
        n > 0,
        0 <= c < n,
    ensures
        down_step(c, n) == if c + 1 < n {
            c + 1
        } else {
            0
        },
        up_step(c, n) == if c == 0 {
            n - 1
        } else {
            c - 1
        },
{
    if c + 1 < n {
        vstd::arithmetic::div_mod::lemma_small_mod((c + 1) as nat, n as nat);
    } else {
        vstd::arithmetic::div_mod::lemma_mod_self_0(n);
    }
    if c == 0 {
        vstd::arithmetic::div_mod::lemma_small_mod((n - 1) as nat, n as nat);
    } else {
        vstd::arithmetic::div_mod::lemma_mod_add_multiples_vanish(c - 1, n);
        vstd::arithmetic::div_mod::lemma_small_mod((c - 1) as nat, n as nat);
    }
}

/// After `k <= n` downward moves from the top of a view of `n` entries
/// the cursor stands at `k`, except that the `n`-th move wraps back to
/// the top.
proof fn lemma_down_iter(n: int, k: nat)
    requires
        n > 0,
        k <= n,
    ensures
        down_iter(0, n, k) == if k < n {
            k as int
        } else {
            0
        },
    decreases k,
{
    if k > 0 {
        lemma_down_iter(n, (k - 1) as nat);
        lemma_step_values(k - 1, n);
    }
}

/// After `k <= n` upward moves from the top of a view of `n` entries the
/// cursor stands at `n - k`, except that the `n`-th move wraps back to
/// the top.
proof fn lemma_up_iter(n: int, k: nat)
    requires
        n > 0,
        0 < k <= n,
    ensures
        up_iter(0, n, k) == n - k,
    decreases k,
{
    if k > 1 {
        lemma_up_iter(n, (k - 1) as nat);
        lemma_step_values(n - k + 1, n);
    } else {
        assert(up_iter(0, n, 0) == 0);
        lemma_step_values(0, n);
    }
}

/// Wraparound: in a view of `n` entries, exactly `n` downward moves from
/// the top return the cursor to the top, and so do `n` upward moves.
pub proof fn lemma_wraparound(n: int)
    requires
        n > 0,
    ensures
        down_iter(0, n, n as nat) == 0,
        up_iter(0, n, n as nat) == 0,
{
    lemma_down_iter(n, n as nat);
    lemma_up_iter(n, n as nat);
}

/// One interactive selection session: the fixed candidate pool, the
/// ranked view under the live query, the cursor, and the termination
/// flags.
pub struct App {
    index: usize,
    current_branch: String,
    searchterm: Vec<char>,
    all_branches: Vec<String>,
    found_branches: Vec<String>,
    exit: bool,
    selected: bool,
}

impl App {
    /// The candidate pool, as sequences of characters.
    pub closed spec fn pool(self) -> Seq<Seq<char>> {
        self.all_branches.deep_view()
    }

    /// The live query.
    pub closed spec fn query(self) -> Seq<char> {
        self.searchterm@
    }

    /// The ranked view, as sequences of characters.
    pub closed spec fn view_now(self) -> Seq<Seq<char>> {
        self.found_branches.deep_view()
    }

    /// The cursor position.
    pub closed spec fn cursor_at(self) -> int {
        self.index as int
    }

    /// Whether the session has terminated.
    pub closed spec fn terminated(self) -> bool {
        self.exit
    }

    /// Whether the session terminated with a confirmed selection.
    pub closed spec fn confirmed(self) -> bool {
        self.selected
    }

    /// The label shown beside the view; never read by the core logic.
    pub closed spec fn current_label(self) -> Seq<char> {
        self.current_branch@
    }

    /// Session invariant: the pool is non-empty, the view is the ranked
    /// view of the pool under the live query, the cursor is inside the
    /// view, and a confirmed selection only exists once the session has
    /// terminated.
    pub open spec fn wf(self) -> bool {
        &&& self.pool().len() > 0
        &&& self.view_now().len() == self.pool().len()
        &&& is_ranked_view(self.pool(), self.query(), self.view_now())
        &&& 0 <= self.cursor_at() < self.view_now().len()
        &&& (self.confirmed() ==> self.terminated())
    }

    /// Start a session over a non-empty pool, with an optional pre-seeded
    /// query, already ranked once and with the cursor at the top.
    pub fn new(branches: Vec<String>, searchterm: Option<String>, current_branch: String) -> (app:
        App)
        requires
            branches@.len() > 0,
        ensures
            app.wf(),
            app.pool() == branches.deep_view(),
            app.query() == match searchterm {
                Some(s) => s@,
                None => Seq::<char>::empty(),
            },
            app.cursor_at() == 0,
            !app.terminated(),
            !app.confirmed(),
            app.current_label() == current_branch@,
    {
        let query: Vec<char> = match searchterm {
            Some(s) => str_chars(s.as_str()),
            None => Vec::new(),
        };
        let found: Vec<String> = rerank(&branches, &query);
        App {
            index: 0,
            current_branch,
            searchterm: query,
            all_branches: branches,
            found_branches: found,
            exit: false,
            selected: false,
        }
    }

    /// Recompute the ranked view from the pool and the live query.
    fn update_search(&mut self)
        requires
            old(self).pool().len() > 0,
        ensures
            final(self).view_now().len() == final(self).pool().len(),
            is_ranked_view(final(self).pool(), final(self).query(), final(self).view_now()),
            final(self).pool() == old(self).pool(),
            final(self).query() == old(self).query(),
            final(self).cursor_at() == old(self).cursor_at(),
            final(self).terminated() == old(self).terminated(),
            final(self).confirmed() == old(self).confirmed(),
            final(self).current_label() == old(self).current_label(),
    {
        self.found_branches = rerank(&self.all_branches, &self.searchterm);
    }

    /// Append a typed character to the query, re-rank, and reset the
    /// cursor to the top.
    fn add_char(&mut self, c: char)
        requires
            old(self).wf(),
        ensures
            final(self).wf(),
            final(self).query() == old(self).query().push(c),
            final(self).cursor_at() == 0,
            final(self).pool() == old(self).pool(),
            final(self).terminated() == old(self).terminated(),
            final(self).confirmed() == old(self).confirmed(),
            final(self).current_label() == old(self).current_label(),
    {
        self.searchterm.push(c);
        self.update_search();
        self.index = 0;
    }

    /// Remove the last query character if there is one, re-rank, and
    /// reset the cursor to the top.  Deleting from an empty query leaves
    /// the query empty but still re-ranks and resets.
    fn delete_char(&mut self)
        requires
            old(self).wf(),
        ensures
            final(self).wf(),
            final(self).query() == if old(self).query().len() > 0 {
                old(self).query().drop_last()
            } else {
                old(self).query()
            },
            final(self).cursor_at() == 0,
            final(self).pool() == old(self).pool(),
            final(self).terminated() == old(self).terminated(),
            final(self).confirmed() == old(self).confirmed(),
            final(self).current_label() == old(self).current_label(),
    {
        self.searchterm.pop();
        self.update_search();
        self.index = 0;
    }

    /// Move the cursor down one entry, wrapping from the bottom to the
    /// top.
    fn increment_index(&mut self)
        requires
            old(self).wf(),
        ensures
            final(self).wf(),
            final(self).cursor_at() == down_step(
                old(self).cursor_at(),
                old(self).view_now().len() as int,
            ),
            final(self).query() == old(self).query(),
            final(self).view_now() == old(self).view_now(),
            final(self).pool() == old(self).pool(),
            final(self).terminated() == old(self).terminated(),
            final(self).confirmed() == old(self).confirmed(),
            final(self).current_label() == old(self).current_label(),
    {
        proof {
            lemma_step_values(self.index as int, self.found_branches@.len() as int);
        }
        if self.index == self.found_branches.len() - 1 {
            self.index = 0;
        } else {
            self.index = self.index + 1;
        }
    }

    /// Move the cursor up one entry, wrapping from the top to the
    /// bottom.
    fn decrement_index(&mut self)
        requires
            old(self).wf(),
        ensures
            final(self).wf(),
            final(self).cursor_at() == up_step(
                old(self).cursor_at(),
                old(self).view_now().len() as int,
            ),
            final(self).query() == old(self).query(),
            final(self).view_now() == old(self).view_now(),
            final(self).pool() == old(self).pool(),
            final(self).terminated() == old(self).terminated(),
            final(self).confirmed() == old(self).confirmed(),
            final(self).current_label() == old(self).current_label(),
    {
        proof {
            lemma_step_values(self.index as int, self.found_branches@.len() as int);
        }
        if self.index == 0 {
            self.index = self.found_branches.len() - 1;
        } else {
            self.index = self.index - 1;
        }
    }

    /// Terminate the session with the candidate under the cursor
    /// selected.
    fn select(&mut self)
        ensures
            final(self).terminated(),
            final(self).confirmed(),
            final(self).query() == old(self).query(),
            final(self).view_now() == old(self).view_now(),
            final(self).cursor_at() == old(self).cursor_at(),
            final(self).pool() == old(self).pool(),
            final(self).current_label() == old(self).current_label(),
    {
        self.exit = true;
        self.selected = true;
    }

    /// Apply one input event to an active session: edit events mutate
    /// the query, re-rank and reset the cursor; cursor events move with
    /// wraparound; confirm and cancel terminate, freezing query, view
    /// and cursor; anything else is ignored.
    pub fn handle_key_event(&mut self, event: InputEvent)
        requires
            old(self).wf(),
            !old(self).terminated(),
        ensures
            final(self).wf(),
            final(self).pool() == old(self).pool(),
            final(self).current_label() == old(self).current_label(),
            match event {
                InputEvent::Char(c) => {
                    &&& final(self).query() == old(self).query().push(c)
                    &&& final(self).cursor_at() == 0
                    &&& !final(self).terminated()
                    &&& !final(self).confirmed()
                },
                InputEvent::DeleteChar => {
                    &&& final(self).query() == if old(self).query().len() > 0 {
                        old(self).query().drop_last()
                    } else {
                        old(self).query()
                    }
                    &&& final(self).cursor_at() == 0
                    &&& !final(self).terminated()
                    &&& !final(self).confirmed()
                },
                InputEvent::CursorDown => {
                    &&& final(self).cursor_at() == down_step(
                        old(self).cursor_at(),
                        old(self).view_now().len() as int,
                    )
                    &&& final(self).query() == old(self).query()
                    &&& final(self).view_now() == old(self).view_now()
                    &&& !final(self).terminated()
                    &&& !final(self).confirmed()
                },
                InputEvent::CursorUp => {
                    &&& final(self).cursor_at() == up_step(
                        old(self).cursor_at(),
                        old(self).view_now().len() as int,
                    )
                    &&& final(self).query() == old(self).query()
                    &&& final(self).view_now() == old(self).view_now()
                    &&& !final(self).terminated()
                    &&& !final(self).confirmed()
                },
                InputEvent::Confirm => {
                    &&& final(self).terminated()
                    &&& final(self).confirmed()
                    &&& final(self).query() == old(self).query()
                    &&& final(self).view_now() == old(self).view_now()
                    &&& final(self).cursor_at() == old(self).cursor_at()
                },
                InputEvent::Cancel => {
                    &&& final(self).terminated()
                    &&& !final(self).confirmed()
                    &&& final(self).query() == old(self).query()
                    &&& final(self).view_now() == old(self).view_now()
                    &&& final(self).cursor_at() == old(self).cursor_at()
                },
                InputEvent::Other => *final(self) == *old(self),
            },
    {
        match event {
            InputEvent::Char(c) => self.add_char(c),
            InputEvent::DeleteChar => self.delete_char(),
            InputEvent::CursorDown => self.increment_index(),
            InputEvent::CursorUp => self.decrement_index(),
            InputEvent::Confirm => self.select(),
            InputEvent::Cancel => self.exit = true,
            InputEvent::Other => {},
        }
    }

    /// The terminal value of the session: whether the user confirmed,
    /// and, if so, the candidate under the cursor.
    pub fn session_result(&self) -> (r: SessionResult)
        requires
            self.wf(),
        ensures
            r.confirmed == self.confirmed(),
            self.confirmed() ==> (r.candidate matches Some(c) && c@ == self.view_now()[self.cursor_at()]),
            !self.confirmed() ==> r.candidate is None,
    {
        if self.selected {
            SessionResult {
                confirmed: true,
                candidate: Some(self.found_branches[self.index].clone()),
            }
        } else {
            SessionResult { confirmed: false, candidate: None }
        }
    }

    /// The ranked view, for rendering.
    pub fn view_branches(&self) -> (r: &Vec<String>)
        ensures
            r.deep_view() == self.view_now(),
    {
        &self.found_branches
    }

    /// The live query, for rendering.
    pub fn query_chars(&self) -> (r: &Vec<char>)
        ensures
            r@ == self.query(),
    {
        &self.searchterm
    }

    /// The cursor position, for rendering.
    pub fn cursor(&self) -> (r: usize)
        ensures
            r as int == self.cursor_at(),
    {
        self.index
    }

    /// The label shown beside the view, for rendering.
    pub fn current_branch_name(&self) -> (r: &String)
        ensures
            r@ == self.current_label(),
    {
        &self.current_branch
    }

    /// Whether the session has terminated.
    pub fn is_terminated(&self) -> (r: bool)
        ensures
            r == self.terminated(),
    {
        self.exit
    }

    /// Whether the session terminated with a confirmed selection.
    pub fn is_confirmed(&self) -> (r: bool)
        ensures
            r == self.confirmed(),
    {
        self.selected
    }
}

} // verus!
