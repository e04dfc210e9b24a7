//! What each key does: the search prompt, the keys every view shares, and
//! the keys of the tree, stats, logs, events and files views.
use vstd::prelude::*;

use super::commands::{
    action_confirming, clamp, collapsed_or_up, container_action_done, edit_started,
    exec_popup_opened, expand_toggled, moved_by, nudged, refreshed, rebuilt_after, row_selected,
};
use super::data::streams_left;
use super::lists::{entries_of, lines_of, stats_rows_of, events_of};
use super::views::{
    files_navigated, logs_opened, row_files_opened, row_logs_opened, view_entered,
};
use super::{App, Focus, Popup, Search};
use crate::actions::{
    erased_back, erased_fwd, moved_left, moved_right, text_fits, typed, ContainerAction, TextInput,
};
use crate::files::{child_of, parent_of};
use crate::keys::{Key, KeyCode, KeyKind};
use crate::model::Container;
use crate::search::regex_error;
use crate::text::{byte_len, lemma_boundary_at};
use crate::tree::{rows_view, RowKind};
use crate::util::strs;

verus! {

// ---------------------------------------------------------------- text keys

/// The key edits a text input.
pub open spec fn edits_text(code: KeyCode) -> bool {
    match code {
        KeyCode::Backspace | KeyCode::Delete | KeyCode::Left | KeyCode::Right | KeyCode::Home
        | KeyCode::End | KeyCode::Char(_) => true,
        _ => false,
    }
}

/// A text input after editing key `code`.
pub open spec fn edited(t: (Seq<char>, int), code: KeyCode) -> (Seq<char>, int) {
    match code {
        KeyCode::Home => (t.0, 0int),
        _ => if text_fits(t.0) {
            match code {
                KeyCode::Backspace => erased_back(t),
                KeyCode::Delete => erased_fwd(t),
                KeyCode::Left => moved_left(t),
                KeyCode::Right => moved_right(t),
                KeyCode::End => (t.0, byte_len(t.0)),
                KeyCode::Char(c) => typed(t, c),
                _ => t,
            }
        } else {
            t
        },
    }
}

/// Whether `code` edits a text input.
pub fn is_edit_key(code: KeyCode) -> (r: bool)
    ensures
        r == edits_text(code),
{
    match code {
        KeyCode::Backspace | KeyCode::Delete | KeyCode::Left | KeyCode::Right | KeyCode::Home
        | KeyCode::End | KeyCode::Char(_) => true,
        _ => false,
    }
}

/// Applies an editing key to `t`; tells whether `code` was one.
pub fn edit_input(t: &mut TextInput, code: KeyCode) -> (r: bool)
    requires
        old(t).wf(),
    ensures
        r == edits_text(code),
        !r ==> *final(t) == *old(t),
        final(t)@ == if r {
            edited(old(t)@, code)
        } else {
            old(t)@
        },
        final(t).wf(),
{
    proof {
        lemma_boundary_at(t.value@, t.cursor as int);
        crate::actions::lemma_edits_keep_boundary(t@, 'a');
        crate::actions::lemma_erasing_keeps_boundary(t@);
        match code {
            KeyCode::Char(c) => crate::actions::lemma_edits_keep_boundary(t@, c),
            _ => {},
        }
    }
    match code {
        KeyCode::Backspace => t.backspace(),
        KeyCode::Delete => t.delete(),
        KeyCode::Left => t.left(),
        KeyCode::Right => t.right(),
        KeyCode::Home => t.home(),
        KeyCode::End => t.end(),
        KeyCode::Char(c) => t.insert(c),
        _ => {
            return false;
        },
    }
    true
}

// ---------------------------------------------------------------- what keys do

/// `new` is `old` with search input `t`.
pub open spec fn search_input_set(old: App, new: App) -> bool {
    new == (App { search: Search { input: new.search.input, ..old.search }, ..old })
}

/// `new` is `old` after key `key` at the `/` prompt.
pub open spec fn search_key_handled(old: App, new: App, key: Key) -> bool {
    let s = old.search;
    if key.code == KeyCode::Esc {
        new == (App { search: Search { prompting: false, error: None, ..s }, ..old })
    } else if key.code == KeyCode::Enter {
        match regex_error(s.input.value@) {
            None => exists|m: App|
                #[trigger] rebuilt_after(m, new) && (m.search.active matches Some(x) && x@
                    == s.input.value@) && m.search.last@ == s.input.value@ && m == (App {
                    search: Search {
                        active: m.search.active,
                        last: m.search.last,
                        prompting: false,
                        error: None,
                        ..s
                    },
                    ..old
                }),
            Some(e) => (new.search.error matches Some(x) && x@ == e) && new == (App {
                search: Search { error: new.search.error, ..s },
                ..old
            }),
        }
    } else if key.code == KeyCode::Char('u') && key.ctrl {
        new.search.input@ == (Seq::<char>::empty(), 0int) && search_input_set(old, new)
    } else if edits_text(key.code) {
        new.search.input@ == edited(s.input@, key.code) && search_input_set(old, new)
    } else {
        new == old
    }
}

/// The keys every view shares.
pub open spec fn global_key(code: KeyCode) -> bool {
    match code {
        KeyCode::Char(c) => c == 'q' || c == 'c' || c == '?' || c == '/' || c == 'o' || c == '1'
            || c == '2' || c == '3' || c == '4' || c == 'r',
        _ => false,
    }
}

/// `new` is `old` after shared key `c`.
pub open spec fn global_handled(old: App, new: App, c: char) -> bool {
    if c == 'q' {
        new == old
    } else if c == 'c' {
        new == (App { popup: Popup::Context, popup_sel: old.current_ctx, ..old })
    } else if c == '?' {
        new == (App { popup: Popup::Help, ..old })
    } else if c == '/' {
        &&& new.search.input.value == old.search.last
        &&& (text_fits(old.search.last@) ==> new.search.input.cursor == byte_len(
            old.search.last@,
        ))
        &&& new.search.input.wf()
        &&& new == (App {
            search: Search { prompting: true, input: new.search.input, error: None, ..old.search },
            ..old
        })
    } else if c == 'o' {
        new == (App { popup: Popup::Ops, popup_sel: 0, ..old })
    } else if c == '1' {
        exists|m: App| #[trigger] streams_left(old, m) && new == (App { view: super::View::Tree, ..m })
    } else if c == '2' {
        exists|m: App| #[trigger] streams_left(old, m) && view_entered(m, new, super::View::Stats)
    } else if c == '3' {
        exists|m: App|
            #[trigger] streams_left(old, m) && new == (App { view: super::View::Events, ..m })
    } else if c == '4' {
        if old.view != super::View::Logs {
            exists|m: App| #[trigger] streams_left(old, m) && view_entered(m, new, super::View::Logs)
        } else {
            view_entered(old, new, super::View::Logs)
        }
    } else {
        refreshed(old, new)
    }
}

/// The selected row is a container or volume leaf.
pub open spec fn on_leaf(a: App) -> bool {
    a.tree_sel < a.tree_rows@.len() && !a.tree_rows@[a.tree_sel as int].has_children && match a.tree_rows@[a.tree_sel as int].kind {
        RowKind::Container(_) | RowKind::Volume(_) => true,
        _ => false,
    }
}

/// `new` is `old` with the `/` filter dropped and the tree rebuilt.
pub open spec fn filter_cleared(old: App, new: App) -> bool {
    rebuilt_after(App { search: Search { active: None, error: None, ..old.search }, ..old }, new)
}

/// `x - 1`, but not below 0.
pub open spec fn dec1(x: int) -> int {
    if x > 0 {
        x - 1
    } else {
        0
    }
}

/// `new` is `old` after key `code` in the tree view with the detail pane
/// focused.
pub open spec fn detail_key_handled(old: App, new: App, code: KeyCode) -> bool {
    let n = crate::detail::detail_count(old);
    match code {
        KeyCode::Tab => new == (App { focus: Focus::Tree, ..old }),
        KeyCode::Up | KeyCode::Char('k') => new == (App {
            detail_scroll: dec1(old.detail_scroll as int) as u16,
            ..old
        }),
        KeyCode::Down | KeyCode::Char('j') => new == (App {
            detail_scroll: if old.detail_scroll < dec1(n) && old.detail_scroll < u16::MAX {
                (old.detail_scroll + 1) as u16
            } else {
                old.detail_scroll
            },
            ..old
        }),
        KeyCode::Char('g') => new == (App { detail_scroll: 0, ..old }),
        KeyCode::Char('G') => new == (App {
            detail_scroll: (if dec1(n) > u16::MAX {
                u16::MAX as int
            } else {
                dec1(n)
            }) as u16,
            ..old
        }),
        KeyCode::Char('L') => row_logs_opened(old, new),
        KeyCode::Char('<') => new == (App { split_pct: nudged(old.split_pct as int, -3) as u16, ..old }),
        KeyCode::Char('>') => new == (App { split_pct: nudged(old.split_pct as int, 3) as u16, ..old }),
        KeyCode::Char('f') => row_files_opened(old, new),
        _ => new == old,
    }
}

/// `new` is `old` after key `code` in the tree view with the tree focused.
pub open spec fn tree_focus_key_handled(old: App, new: App, code: KeyCode) -> bool {
    match code {
        KeyCode::Esc => if old.pattern() is Some {
            filter_cleared(old, new)
        } else {
            new == old
        },
        KeyCode::Up | KeyCode::Char('k') => moved_by(old, new, -1),
        KeyCode::Down | KeyCode::Char('j') => moved_by(old, new, 1),
        KeyCode::Char('g') | KeyCode::Home => row_selected(old, new, 0),
        KeyCode::Char('G') | KeyCode::End => row_selected(old, new, dec1(old.tree_rows@.len() as int)),
        KeyCode::Enter | KeyCode::Right | KeyCode::Char(' ') => if on_leaf(old) {
            new == (App { focus: Focus::Detail, ..old })
        } else {
            expand_toggled(old, new)
        },
        KeyCode::Left | KeyCode::Char('h') => collapsed_or_up(old, new),
        KeyCode::Tab => new == (App { focus: Focus::Detail, ..old }),
        KeyCode::Char('<') => new == (App { split_pct: nudged(old.split_pct as int, -3) as u16, ..old }),
        KeyCode::Char('>') => new == (App { split_pct: nudged(old.split_pct as int, 3) as u16, ..old }),
        KeyCode::Char('L') => row_logs_opened(old, new),
        KeyCode::Char('f') => row_files_opened(old, new),
        KeyCode::Char('S') => container_action_done(old, new, ContainerAction::Start),
        KeyCode::Char('K') => container_action_done(old, new, ContainerAction::Stop),
        KeyCode::Char('R') => container_action_done(old, new, ContainerAction::Restart),
        KeyCode::Char('D') => action_confirming(old, new, ContainerAction::Remove),
        KeyCode::Char('E') => edit_started(old, new),
        KeyCode::Char('t') => exec_popup_opened(old, new),
        _ => new == old,
    }
}

/// `new` is `old` after key `code` in the stats view.
pub open spec fn stats_key_handled(old: App, new: App, code: KeyCode) -> bool {
    let rows = stats_rows_of(old.containers@, old.pattern());
    let n = rows.len() as int;
    match code {
        KeyCode::Esc => if old.pattern() is Some {
            filter_cleared(old, new)
        } else {
            new == old
        },
        KeyCode::Up | KeyCode::Char('k') => new == (App { stats_sel: dec1(old.stats_sel as int) as usize, ..old }),
        KeyCode::Down | KeyCode::Char('j') => new == (App {
            stats_sel: if n > 0 {
                clamp(old.stats_sel + 1, 0, n - 1) as usize
            } else {
                old.stats_sel
            },
            ..old
        }),
        KeyCode::Char('g') | KeyCode::Home => new == (App { stats_sel: 0, ..old }),
        KeyCode::Char('G') | KeyCode::End => new == (App { stats_sel: dec1(n) as usize, ..old }),
        KeyCode::Char('L') => if old.stats_sel < n {
            logs_opened(
                old,
                new,
                seq![
                    super::LogTarget {
                        id: rows[old.stats_sel as int].id,
                        name: rows[old.stats_sel as int].name,
                    },
                ],
            )
        } else {
            new == old
        },
        _ => new == old,
    }
}

/// How far back a list view is scrolled, and whether it follows the end.
pub open spec fn scrolled(new_off: int, new_follow: bool, off: int, follow: bool, n: int, code: KeyCode) -> bool {
    match code {
        KeyCode::Up | KeyCode::Char('k') => !new_follow && new_off == (if off + 1 < dec1(n) {
            off + 1
        } else {
            dec1(n)
        }),
        KeyCode::Down | KeyCode::Char('j') => new_off == dec1(off) && new_follow == (follow
            || dec1(off) == 0),
        KeyCode::Char('g') | KeyCode::Home => !new_follow && new_off == dec1(n),
        KeyCode::Char('G') | KeyCode::End => new_follow && new_off == 0,
        KeyCode::Char('f') => new_follow == !follow && new_off == (if !follow {
            0
        } else {
            off
        }),
        _ => new_off == off && new_follow == follow,
    }
}

/// The log view's scroll offset and follow flag after key `code`, for
/// `n` lines (the page keys move ten lines).
pub open spec fn log_scrolled(new_off: int, new_follow: bool, off: int, follow: bool, n: int, code: KeyCode) -> bool {
    if code == KeyCode::PageUp {
        !new_follow && new_off == (if off + 10 < dec1(n) {
            off + 10
        } else {
            dec1(n)
        })
    } else if code == KeyCode::PageDown {
        let o = if off > 10 {
            off - 10
        } else {
            0
        };
        new_off == o && new_follow == (follow || o == 0)
    } else {
        scrolled(new_off, new_follow, off, follow, n, code)
    }
}

/// `new` is `old` after key `code` in the logs view.
pub open spec fn logs_key_handled(old: App, new: App, code: KeyCode) -> bool {
    let n = lines_of(strs(old.log_lines@), old.pattern()).len() as int;
    if code == KeyCode::Esc {
        if old.pattern() is Some {
            filter_cleared(old, new)
        } else {
            exists|m: App| #[trigger] streams_left(old, m) && new == (App { view: super::View::Tree, ..m })
        }
    } else if code == KeyCode::Char('s') {
        new == (App { popup: Popup::ContainerSelect, popup_sel: 0, ..old })
    } else {
        &&& log_scrolled(new.log_off as int, new.log_follow, old.log_off as int, old.log_follow, n, code)
        &&& new == (App { log_off: new.log_off, log_follow: new.log_follow, ..old })
    }
}

/// `new` is `old` after key `code` in the events view.
pub open spec fn events_key_handled(old: App, new: App, code: KeyCode) -> bool {
    let n = events_of(old.events@, old.pattern()).len() as int;
    if code == KeyCode::Esc {
        if old.pattern() is Some {
            filter_cleared(old, new)
        } else {
            new == (App { view: super::View::Tree, ..old })
        }
    } else {
        &&& scrolled(
            new.events_off as int,
            new.events_follow,
            old.events_off as int,
            old.events_follow,
            n,
            code,
        )
        &&& new == (App { events_off: new.events_off, events_follow: new.events_follow, ..old })
    }
}

/// The directory entries the explorer shows.
pub open spec fn files_shown(a: App) -> Seq<crate::files::FsEntry> {
    match a.files {
        Some(f) => entries_of(f.entries@, a.pattern()),
        None => Seq::empty(),
    }
}

/// `new` is `old` with the explorer's selection at `sel`.
pub open spec fn files_sel_set(old: App, new: App, sel: int) -> bool {
    match old.files {
        Some(f) => new == (App {
            files: Some(super::FilesState { sel: sel as usize, ..f }),
            ..old
        }),
        None => new == old,
    }
}

/// `new` is `old` after key `code` in the files view.
pub open spec fn files_key_handled(old: App, new: App, code: KeyCode) -> bool {
    let n = files_shown(old).len() as int;
    let sel = match old.files {
        Some(f) => f.sel as int,
        None => 0,
    };
    match code {
        KeyCode::Esc => if old.pattern() is Some {
            filter_cleared(old, new)
        } else {
            exists|m: App| #[trigger] streams_left(old, m) && new == (App { view: super::View::Tree, ..m })
        },
        KeyCode::Up | KeyCode::Char('k') => files_sel_set(old, new, dec1(sel)),
        KeyCode::Down | KeyCode::Char('j') => if n > 0 {
            files_sel_set(old, new, clamp(sel + 1, 0, n - 1))
        } else {
            new == old
        },
        KeyCode::Char('g') | KeyCode::Home => files_sel_set(old, new, 0),
        KeyCode::Char('G') | KeyCode::End => files_sel_set(old, new, dec1(n)),
        KeyCode::Enter | KeyCode::Right | KeyCode::Char('l') => if sel < n && files_shown(
            old,
        )[sel].dir {
            files_navigated(old, new, child_of(old.files->0.path@, files_shown(old)[sel].name@))
        } else {
            new == old
        },
        KeyCode::Char('r') => super::views::files_requested(old, new),
        KeyCode::Left | KeyCode::Char('h') | KeyCode::Backspace => match old.files {
            Some(f) => if f.path@ != "/"@ {
                files_navigated(old, new, parent_of(f.path@))
            } else {
                new == old
            },
            None => new == old,
        },
        _ => new == old,
    }
}

/// `new` is `old` after key `code` in the current view (no popup open,
/// no prompt); `quit` tells whether the key asks to quit.
pub open spec fn view_key_handled(old: App, new: App, code: KeyCode) -> bool {
    if global_key(code) {
        match code {
            KeyCode::Char(c) => global_handled(old, new, c),
            _ => false,
        }
    } else {
        match old.view {
            super::View::Tree => if old.focus == Focus::Detail {
                detail_key_handled(old, new, code)
            } else {
                tree_focus_key_handled(old, new, code)
            },
            super::View::Stats => stats_key_handled(old, new, code),
            super::View::Logs => logs_key_handled(old, new, code),
            super::View::Events => events_key_handled(old, new, code),
            super::View::Files => files_key_handled(old, new, code),
        }
    }
}

/// `new` is `old` after key `key`; `r` is false when the key asks to
/// quit.
pub open spec fn key_handled(old: App, new: App, key: Key, r: bool) -> bool {
    if key.kind == KeyKind::Release {
        r && new == old
    } else if key.ctrl && key.code == KeyCode::Char('c') {
        !r && new == old
    } else if old.search.prompting {
        r && search_key_handled(old, new, key)
    } else if old.popup != Popup::Closed {
        r && super::popups::popup_key_handled(old, new, key.code)
    } else {
        r == (key.code != KeyCode::Char('q')) && view_key_handled(old, new, key.code)
    }
}

/// A list view's scroll offset and follow flag after key `code`, for a
/// list of `n` lines.
pub fn scroll_step(off: usize, follow: bool, n: usize, code: KeyCode) -> (r: (usize, bool))
    ensures
        scrolled(r.0 as int, r.1, off as int, follow, n as int, code),
{
    let last = if n > 0 {
        n - 1
    } else {
        0
    };
    match code {
        KeyCode::Up | KeyCode::Char('k') => (
            if off < last && off + 1 < last {
                off + 1
            } else {
                last
            },
            false,
        ),
        KeyCode::Down | KeyCode::Char('j') => {
            let o = if off > 0 {
                off - 1
            } else {
                0
            };
            (o, follow || o == 0)
        },
        KeyCode::Char('g') | KeyCode::Home => (last, false),
        KeyCode::Char('G') | KeyCode::End => (0, true),
        KeyCode::Char('f') => if !follow {
            (0, true)
        } else {
            (off, false)
        },
        _ => (off, follow),
    }
}

/// The log view's scroll offset and follow flag after key `code`.
pub fn log_scroll_step(off: usize, follow: bool, n: usize, code: KeyCode) -> (r: (usize, bool))
    ensures
        log_scrolled(r.0 as int, r.1, off as int, follow, n as int, code),
{
    let last = if n > 0 {
        n - 1
    } else {
        0
    };
    if code == KeyCode::PageUp {
        (
            if off < last && last - off > 10 {
                off + 10
            } else {
                last
            },
            false,
        )
    } else if code == KeyCode::PageDown {
        let o = if off > 10 {
            off - 10
        } else {
            0
        };
        (o, follow || o == 0)
    } else {
        scroll_step(off, follow, n, code)
    }
}

impl App {
    /// Handles a key; returns false when the interface should quit.
    pub fn handle_key(&mut self, key: Key) -> (r: bool)
        requires
            old(self).wf(),
        ensures
            key_handled(*old(self), *final(self), key, r),
            final(self).wf(),
    {
        if key.kind == KeyKind::Release {
            return true;
        }
        if key.ctrl && key.code == KeyCode::Char('c') {
            return false;
        }
        if self.search.prompting {
            self.handle_search_key(key);
            return true;
        }
        if self.popup != Popup::Closed {
            self.handle_popup_key(key.code);
            return true;
        }
        self.handle_view_key(key.code)
    }

    /// A key at the `/` prompt.
    pub fn handle_search_key(&mut self, key: Key)
        requires
            old(self).wf(),
        ensures
            search_key_handled(*old(self), *final(self), key),
            final(self).wf(),
    {
        if key.code == KeyCode::Esc {
            self.search.prompting = false;
            self.search.error = None;
        } else if key.code == KeyCode::Enter {
            match crate::search::Matcher::new(self.search.input.value.as_str()) {
                Ok(m) => {
                    self.search.last = self.search.input.value.clone();
                    self.search.active = Some(m);
                    self.search.prompting = false;
                    self.search.error = None;
                    let ghost mid = *self;
                    self.rebuild_tree();
                    assert(rebuilt_after(mid, *self));
                },
                Err(e) => {
                    self.search.error = Some(e);
                },
            }
        } else if key.code == KeyCode::Char('u') && key.ctrl {
            self.search.input.clear();
        } else {
            edit_input(&mut self.search.input, key.code);
        }
    }

    /// A key in the current view (shared keys first).
    fn handle_view_key(&mut self, code: KeyCode) -> (r: bool)
        requires
            old(self).wf(),
            !old(self).search.prompting,
            old(self).popup == Popup::Closed,
        ensures
            r == (code != KeyCode::Char('q')),
            view_key_handled(*old(self), *final(self), code),
            final(self).wf(),
    {
        match code {
            KeyCode::Char(c) => {
                if c == 'q' || c == 'c' || c == '?' || c == '/' || c == 'o' || c == '1' || c == '2'
                    || c == '3' || c == '4' || c == 'r' {
                    self.handle_global_key(c);
                    return c != 'q';
                }
            },
            _ => {},
        }
        match self.view {
            super::View::Tree => {
                if self.focus == Focus::Detail {
                    self.handle_detail_key(code);
                } else {
                    self.handle_tree_key(code);
                }
            },
            super::View::Stats => self.handle_stats_key(code),
            super::View::Logs => self.handle_logs_key(code),
            super::View::Events => self.handle_events_key(code),
            super::View::Files => self.handle_files_key(code),
        }
        true
    }

    /// A key every view shares.
    fn handle_global_key(&mut self, c: char)
        requires
            old(self).wf(),
            c == 'q' || c == 'c' || c == '?' || c == '/' || c == 'o' || c == '1' || c == '2' || c
                == '3' || c == '4' || c == 'r',
        ensures
            global_handled(*old(self), *final(self), c),
            final(self).wf(),
    {
        if c == 'q' {
        } else if c == 'c' {
            self.popup = Popup::Context;
            self.popup_sel = self.current_ctx;
        } else if c == '?' {
            self.popup = Popup::Help;
        } else if c == '/' {
            self.search.prompting = true;
            self.search.input = TextInput::new(self.search.last.clone());
            self.search.error = None;
        } else if c == 'o' {
            self.popup = Popup::Ops;
            self.popup_sel = 0;
        } else if c == '1' {
            self.leave_view_streams();
            let ghost m = *self;
            self.view = super::View::Tree;
            assert(streams_left(*old(self), m));
        } else if c == '2' {
            self.leave_view_streams();
            let ghost m = *self;
            self.enter_view(super::View::Stats);
            assert(streams_left(*old(self), m));
        } else if c == '3' {
            self.leave_view_streams();
            let ghost m = *self;
            self.view = super::View::Events;
            assert(streams_left(*old(self), m));
        } else if c == '4' {
            if self.view != super::View::Logs {
                self.leave_view_streams();
                let ghost m = *self;
                self.enter_view(super::View::Logs);
                assert(streams_left(*old(self), m));
            } else {
                self.enter_view(super::View::Logs);
            }
        } else {
            self.refresh();
        }
    }

    /// A key in the tree view while the detail pane has the focus.
    fn handle_detail_key(&mut self, code: KeyCode)
        requires
            old(self).wf(),
        ensures
            detail_key_handled(*old(self), *final(self), code),
            final(self).wf(),
    {
        match code {
            KeyCode::Tab => {
                self.focus = Focus::Tree;
            },
            KeyCode::Up | KeyCode::Char('k') => {
                if self.detail_scroll > 0 {
                    self.detail_scroll = self.detail_scroll - 1;
                }
            },
            KeyCode::Down | KeyCode::Char('j') => {
                let n = crate::detail::detail_line_count(self);
                let max = if n > 0 {
                    n - 1
                } else {
                    0
                };
                if (self.detail_scroll as usize) < max && self.detail_scroll < u16::MAX {
                    self.detail_scroll = self.detail_scroll + 1;
                }
            },
            KeyCode::Char('g') => {
                self.detail_scroll = 0;
            },
            KeyCode::Char('G') => {
                let n = crate::detail::detail_line_count(self);
                let max = if n > 0 {
                    n - 1
                } else {
                    0
                };
                self.detail_scroll = if max > u16::MAX as usize {
                    u16::MAX
                } else {
                    max as u16
                };
            },
            KeyCode::Char('L') => self.open_logs_for_row(),
            KeyCode::Char('<') => self.nudge_split(-3),
            KeyCode::Char('>') => self.nudge_split(3),
            KeyCode::Char('f') => self.open_files_for_row(),
            _ => {},
        }
    }

    /// A key in the tree view while the tree has the focus.
    fn handle_tree_key(&mut self, code: KeyCode)
        requires
            old(self).wf(),
        ensures
            tree_focus_key_handled(*old(self), *final(self), code),
            final(self).wf(),
    {
        match code {
            KeyCode::Esc => {
                if self.search_active() {
                    self.clear_filter();
                }
            },
            KeyCode::Up | KeyCode::Char('k') => self.tree_move(-1),
            KeyCode::Down | KeyCode::Char('j') => self.tree_move(1),
            KeyCode::Char('g') | KeyCode::Home => self.select_row(0),
            KeyCode::Char('G') | KeyCode::End => {
                let n = self.tree_rows.len();
                self.select_row(
                    if n > 0 {
                        n - 1
                    } else {
                        0
                    },
                );
            },
            KeyCode::Enter | KeyCode::Right | KeyCode::Char(' ') => {
                let leaf = self.tree_sel < self.tree_rows.len()
                    && !self.tree_rows[self.tree_sel].has_children && match &self.tree_rows[self.tree_sel].kind {
                    RowKind::Container(_) | RowKind::Volume(_) => true,
                    _ => false,
                };
                if leaf {
                    self.focus = Focus::Detail;
                } else {
                    self.toggle_expand();
                }
            },
            KeyCode::Left | KeyCode::Char('h') => self.collapse_or_up(),
            KeyCode::Tab => {
                self.focus = Focus::Detail;
            },
            KeyCode::Char('<') => self.nudge_split(-3),
            KeyCode::Char('>') => self.nudge_split(3),
            KeyCode::Char('L') => self.open_logs_for_row(),
            KeyCode::Char('f') => self.open_files_for_row(),
            KeyCode::Char('S') => self.container_action(ContainerAction::Start),
            KeyCode::Char('K') => self.container_action(ContainerAction::Stop),
            KeyCode::Char('R') => self.container_action(ContainerAction::Restart),
            KeyCode::Char('D') => self.confirm_container_action(ContainerAction::Remove),
            KeyCode::Char('E') => self.open_edit(),
            KeyCode::Char('t') => self.open_exec_popup(),
            _ => {},
        }
    }

    /// A key in the stats view.
    fn handle_stats_key(&mut self, code: KeyCode)
        requires
            old(self).wf(),
        ensures
            stats_key_handled(*old(self), *final(self), code),
            final(self).wf(),
    {
        let n = self.stats_rows().len();
        match code {
            KeyCode::Esc => {
                if self.search_active() {
                    self.clear_filter();
                }
            },
            KeyCode::Up | KeyCode::Char('k') => {
                if self.stats_sel > 0 {
                    self.stats_sel = self.stats_sel - 1;
                }
            },
            KeyCode::Down | KeyCode::Char('j') => {
                if n > 0 {
                    self.stats_sel = if self.stats_sel >= n - 1 {
                        n - 1
                    } else {
                        self.stats_sel + 1
                    };
                }
            },
            KeyCode::Char('g') | KeyCode::Home => {
                self.stats_sel = 0;
            },
            KeyCode::Char('G') | KeyCode::End => {
                self.stats_sel = if n > 0 {
                    n - 1
                } else {
                    0
                };
            },
            KeyCode::Char('L') => {
                let target = {
                    let rows = self.stats_rows();
                    if self.stats_sel < rows.len() {
                        let c = rows[self.stats_sel];
                        Some(super::LogTarget { id: c.id.clone(), name: c.name.clone() })
                    } else {
                        None
                    }
                };
                match target {
                    Some(t) => {
                        let mut ts: Vec<super::LogTarget> = Vec::new();
                        ts.push(t);
                        assert(ts@ =~= seq![t]);
                        self.open_logs(ts);
                    },
                    None => {},
                }
            },
            _ => {},
        }
    }

    /// A key in the logs view.
    fn handle_logs_key(&mut self, code: KeyCode)
        requires
            old(self).wf(),
        ensures
            logs_key_handled(*old(self), *final(self), code),
            final(self).wf(),
    {
        let n = self.visible_log_lines().len();
        match code {
            KeyCode::Esc => {
                if self.search_active() {
                    self.clear_filter();
                } else {
                    self.leave_view_streams();
                    let ghost m = *self;
                    self.view = super::View::Tree;
                    assert(streams_left(*old(self), m));
                }
            },
            KeyCode::Char('s') => {
                self.popup = Popup::ContainerSelect;
                self.popup_sel = 0;
            },
            _ => {
                let (o, f) = log_scroll_step(self.log_off, self.log_follow, n, code);
                self.log_off = o;
                self.log_follow = f;
            },
        }
    }

    /// A key in the events view.
    fn handle_events_key(&mut self, code: KeyCode)
        requires
            old(self).wf(),
        ensures
            events_key_handled(*old(self), *final(self), code),
            final(self).wf(),
    {
        let n = self.visible_events().len();
        match code {
            KeyCode::Esc => {
                if self.search_active() {
                    self.clear_filter();
                } else {
                    self.view = super::View::Tree;
                }
            },
            _ => {
                let (o, f) = scroll_step(self.events_off, self.events_follow, n, code);
                self.events_off = o;
                self.events_follow = f;
            },
        }
    }

    /// Sets the explorer's selection.
    fn set_files_sel(&mut self, sel: usize)
        ensures
            files_sel_set(*old(self), *final(self), sel as int),
            old(self).wf() ==> final(self).wf(),
    {
        match self.files.take() {
            Some(mut f) => {
                f.sel = sel;
                self.files = Some(f);
            },
            None => {},
        }
    }

    /// A key in the files view.
    fn handle_files_key(&mut self, code: KeyCode)
        requires
            old(self).wf(),
        ensures
            files_key_handled(*old(self), *final(self), code),
            final(self).wf(),
    {
        let n = self.visible_files().len();
        let sel = match &self.files {
            Some(f) => f.sel,
            None => 0,
        };
        match code {
            KeyCode::Esc => {
                if self.search_active() {
                    self.clear_filter();
                } else {
                    self.leave_view_streams();
                    let ghost m = *self;
                    self.view = super::View::Tree;
                    assert(streams_left(*old(self), m));
                }
            },
            KeyCode::Up | KeyCode::Char('k') => {
                self.set_files_sel(
                    if sel > 0 {
                        sel - 1
                    } else {
                        0
                    },
                );
            },
            KeyCode::Down | KeyCode::Char('j') => {
                if n > 0 {
                    self.set_files_sel(
                        if sel >= n - 1 {
                            n - 1
                        } else {
                            sel + 1
                        },
                    );
                }
            },
            KeyCode::Char('g') | KeyCode::Home => self.set_files_sel(0),
            KeyCode::Char('G') | KeyCode::End => self.set_files_sel(
                if n > 0 {
                    n - 1
                } else {
                    0
                },
            ),
            KeyCode::Enter | KeyCode::Right | KeyCode::Char('l') => {
                let target = {
                    let shown = self.visible_files();
                    if sel < shown.len() && shown[sel].dir {
                        Some(shown[sel].name.clone())
                    } else {
                        None
                    }
                };
                match target {
                    Some(name) => self.files_enter(name.as_str()),
                    None => {},
                }
            },
            KeyCode::Char('r') => self.request_files(),
            KeyCode::Left | KeyCode::Char('h') | KeyCode::Backspace => {
                let parent = match &self.files {
                    Some(f) => if crate::text::eq_str(f.path.as_str(), "/") {
                        None
                    } else {
                        Some(crate::files::parent_path(f.path.as_str()))
                    },
                    None => None,
                };
                match parent {
                    Some(p) => self.files_navigate(p.as_str()),
                    None => {},
                }
            },
            _ => {},
        }
    }
}

/// A key release changes nothing and never quits.
pub proof fn lemma_release_ignored(old: App, new: App, key: Key, r: bool)
    requires
        key_handled(old, new, key, r),
        key.kind == KeyKind::Release,
    ensures
        r,
        new == old,
{
}

/// `D` on a container in the tree never removes it straight away: at most
/// the removal waits in the confirmation popup, and no work is asked for.
pub proof fn lemma_remove_asks_first(old: App, new: App, key: Key, r: bool)
    requires
        key_handled(old, new, key, r),
        key.kind != KeyKind::Release,
        key.code == KeyCode::Char('D'),
        !old.search.prompting,
        old.popup == Popup::Closed,
        old.view == super::View::Tree,
        old.focus == Focus::Tree,
    ensures
        new.effects == old.effects,
        new.containers == old.containers,
        new.popup == Popup::Confirm || new == old,
        new.popup == Popup::Confirm ==> (new.pending matches Some(
            crate::actions::PendingAction::Container { action, .. },
        ) && action == ContainerAction::Remove),
{
}

/// In the logs view, scrolling back (up, page up, home) turns following
/// off; going to the end (`G`) turns it back on at the newest line.
pub proof fn lemma_follow_mode(old: App, new: App, key: Key, r: bool)
    requires
        key_handled(old, new, key, r),
        key.kind != KeyKind::Release,
        !key.ctrl,
        !old.search.prompting,
        old.popup == Popup::Closed,
        old.view == super::View::Logs,
    ensures
        key.code == KeyCode::Up || key.code == KeyCode::PageUp || key.code == KeyCode::Home
            ==> !new.log_follow,
        key.code == KeyCode::End ==> new.log_follow && new.log_off == 0,
{
}

/// Applying a valid filter at the `/` prompt shows exactly the filtered
/// tree (every node expanded), and the selection lands on a container
/// whenever one is shown.
pub proof fn lemma_filter_applied(old: App, new: App, key: Key, r: bool)
    requires
        key_handled(old, new, key, r),
        key.kind != KeyKind::Release,
        key.code == KeyCode::Enter,
        old.search.prompting,
        regex_error(old.search.input.value@) is None,
    ensures
        new.pattern() == Some(old.search.input.value@),
        !new.search.prompting,
        rows_view(new.tree_rows@) == crate::tree::filtered(
            old.search.input.value@,
            crate::tree::tree_spec(new.containers@, new.volumes@, strs(new.expanded@), true),
        ),
        super::first_container(rows_view(new.tree_rows@)) is Some ==> new.tree_rows@[new.tree_sel as int].kind is Container,
{
    let m = choose|m: App|
        #[trigger] rebuilt_after(m, new) && (m.search.active matches Some(x) && x@
            == old.search.input.value@) && m.search.last@ == old.search.input.value@ && m == (App {
            search: Search {
                active: m.search.active,
                last: m.search.last,
                prompting: false,
                error: None,
                ..old.search
            },
            ..old
        });
    let rows = rows_view(new.tree_rows@);
    if super::first_container(rows) is Some {
        super::lemma_reselect_on_container(rows, m.sel_key(), m.tree_sel as int);
        let k = super::reselect(rows, m.sel_key(), m.tree_sel as int, true);
        assert(rows[k] == new.tree_rows@[k]@);
    }
}


/// Escape clears an active filter before it does anything else: the
/// filter goes, the view stays, no popup opens, and the program goes on
/// (the focused detail pane takes no Escape).
pub proof fn lemma_escape_clears_filter_first(old: App, new: App, key: Key, r: bool)
    requires
        key_handled(old, new, key, r),
        key.kind != KeyKind::Release,
        key.code == KeyCode::Esc,
        !key.ctrl,
        !key.alt,
        !old.search.prompting,
        old.popup == Popup::Closed,
        old.pattern() is Some,
        !(old.view == super::View::Tree && old.focus == Focus::Detail),
    ensures
        r,
        new.pattern() is None,
        new.view == old.view,
        new.popup == Popup::Closed,
{
}

/// A view owns its streams: going back to the tree from the stats view
/// stops the stats streams, and from the logs view the log tails.
pub proof fn lemma_leaving_stops_streams(old: App, new: App, key: Key, r: bool)
    requires
        key_handled(old, new, key, r),
        key.kind != KeyKind::Release,
        key.code == KeyCode::Char('1'),
        !key.ctrl,
        !key.alt,
        !old.search.prompting,
        old.popup == Popup::Closed,
        old.view == super::View::Stats || old.view == super::View::Logs,
    ensures
        r,
        new.view == super::View::Tree,
        old.view == super::View::Stats ==> new.effects@ == old.effects@.push(
            super::Effect::StopStats,
        ) && new.stats_spawned@.len() == 0,
        old.view == super::View::Logs ==> new.effects@ == old.effects@.push(
            super::Effect::StopLogs,
        ) && new.log_targets@.len() == 0,
{
}

} // verus!
