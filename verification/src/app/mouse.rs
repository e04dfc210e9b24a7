//! What the mouse does: the wheel scrolls what is under it, a click
//! selects (a second click on the selection opens it), dragging the tree's
//! right edge moves the split.
use vstd::prelude::*;

use super::commands::{clamp, expand_toggled, moved_by, popup_closed, row_selected, split_at};
use super::keys::{dec1, files_sel_set, files_shown, on_leaf};
use super::lists::{events_of, lines_of, stats_rows_of};
use super::popups::{env_closed, popup_len};
use super::views::files_navigated;
use super::{contains, in_rect, App, Focus, Popup};
use crate::actions::{env_pairs, text_of, EditForm, EnvCol, EnvEditor};
use crate::files::child_of;
use crate::keys::{Mouse, MouseKind};
use crate::util::strs;

verus! {

/// A list's scroll offset and follow flag after the wheel moved `dir`
/// over `n` lines (up scrolls back and stops following).
pub open spec fn wheel_scrolled(new_off: int, new_follow: bool, off: int, follow: bool, n: int, dir: int) -> bool {
    if n > 0 {
        if dir < 0 {
            !new_follow && new_off == (if off + 1 < n - 1 {
                off + 1
            } else {
                n - 1
            })
        } else if off > 0 {
            new_off == off - 1 && new_follow == (follow || off - 1 == 0)
        } else {
            new_off == off && new_follow == follow
        }
    } else {
        new_off == off && new_follow == follow
    }
}

/// `new` is `old` after the wheel moved `dir` over cell (`col`, `row`)
/// with a popup open.
pub open spec fn popup_wheeled(old: App, new: App, col: int, row: int, dir: int) -> bool {
    let inside = in_rect(old.areas.popup_list, col, row);
    if old.popup == Popup::Edit && old.env_editor is Some {
        let ed = old.env_editor->0;
        let n = ed.rows@.len() as int;
        if inside && n > 1 {
            new == (App {
                env_editor: Some(
                    EnvEditor { sel: clamp(ed.sel + dir, 0, n - 1) as usize, editing: None, ..ed },
                ),
                ..old
            })
        } else {
            new == old
        }
    } else if !inside {
        new == old
    } else if old.popup == Popup::Edit {
        match old.edit {
            Some(f) => new == (App {
                edit: Some(
                    EditForm { sel: clamp(f.sel + dir, 0, f.fields@.len() as int) as usize, ..f },
                ),
                ..old
            }),
            None => new == old,
        }
    } else if popup_len(old) > 0 {
        new == (App { popup_sel: clamp(old.popup_sel + dir, 0, popup_len(old) - 1) as usize, ..old })
    } else {
        new == old
    }
}

/// `new` is `old` after the wheel moved `dir` over cell (`col`, `row`).
pub open spec fn wheeled(old: App, new: App, col: int, row: int, dir: int) -> bool {
    if old.popup != Popup::Closed {
        popup_wheeled(old, new, col, row, dir)
    } else {
        match old.view {
            super::View::Tree => if in_rect(old.areas.detail, col, row) {
                let n = crate::detail::detail_count(old);
                new == (App {
                    detail_scroll: if dir < 0 {
                        dec1(old.detail_scroll as int) as u16
                    } else if old.detail_scroll < dec1(n) && old.detail_scroll < u16::MAX {
                        (old.detail_scroll + 1) as u16
                    } else {
                        old.detail_scroll
                    },
                    ..old
                })
            } else if in_rect(old.areas.tree, col, row) {
                moved_by(old, new, dir)
            } else {
                new == old
            },
            super::View::Stats => {
                let n = stats_rows_of(old.containers@, old.pattern()).len() as int;
                if in_rect(old.areas.stats_table, col, row) && n > 0 {
                    new == (App { stats_sel: clamp(old.stats_sel + dir, 0, n - 1) as usize, ..old })
                } else {
                    new == old
                }
            },
            super::View::Logs => {
                &&& wheel_scrolled(
                    new.log_off as int,
                    new.log_follow,
                    old.log_off as int,
                    old.log_follow,
                    lines_of(strs(old.log_lines@), old.pattern()).len() as int,
                    dir,
                )
                &&& new == (App { log_off: new.log_off, log_follow: new.log_follow, ..old })
            },
            super::View::Events => {
                &&& wheel_scrolled(
                    new.events_off as int,
                    new.events_follow,
                    old.events_off as int,
                    old.events_follow,
                    events_of(old.events@, old.pattern()).len() as int,
                    dir,
                )
                &&& new == (App { events_off: new.events_off, events_follow: new.events_follow, ..old })
            },
            super::View::Files => {
                let n = files_shown(old).len() as int;
                if n > 0 && old.files is Some {
                    files_sel_set(old, new, clamp(old.files->0.sel + dir, 0, n - 1))
                } else {
                    new == old
                }
            },
        }
    }
}

/// The row of region `a` a click at screen row `row` hits inside its
/// border (`top` header rows below the top edge).
pub open spec fn hit_row(a: super::Rect, col: int, row: int, top: int) -> bool {
    in_rect(a, col, row) && row > a.y + top - 1 && row < a.y + a.height - 1
}

/// `new` is `old` after a click (`down`) or drag at a cell inside the open
/// popup.
pub open spec fn popup_clicked(old: App, new: App, col: int, row: int, down: bool) -> bool {
    let a = old.areas.popup_list;
    if !in_rect(a, col, row) {
        new == old
    } else if old.popup == Popup::Edit {
        match old.edit {
            Some(f) => {
                let field = dec1(dec1(row - a.y));
                if field > f.fields@.len() {
                    new == old
                } else if field < f.fields@.len() && f.fields@[field].label@ == "Env"@ && down {
                    &&& new.env_editor matches Some(e) && e.pairs() == env_pairs(text_of(f.fields@, "Env"@))
                        && e.sel == 0 && e.editing is None && e.wf()
                    &&& new == (App {
                        edit: Some(EditForm { sel: field as usize, ..f }),
                        env_editor: new.env_editor,
                        ..old
                    })
                } else {
                    new == (App { edit: Some(EditForm { sel: field as usize, ..f }), ..old })
                }
            },
            None => new == old,
        }
    } else {
        let idx = old.popup_offset + (row - a.y);
        if idx < popup_len(old) {
            new == (App { popup_sel: idx as usize, ..old })
        } else {
            new == old
        }
    }
}

/// `new` is `old` after a click in the env editor's table: the row is
/// selected and the cell clicked (key or value) edited.
pub open spec fn env_clicked(old: App, new: App, col: int, row: int) -> bool {
    let a = old.areas.popup_list;
    let idx = row - a.y;
    match old.env_editor {
        Some(ed) => if in_rect(a, col, row) && idx < ed.rows@.len() {
            new == (App {
                env_editor: Some(
                    EnvEditor {
                        sel: idx as usize,
                        editing: Some(
                            if col < old.areas.env_split_x {
                                EnvCol::Key
                            } else {
                                EnvCol::Value
                            },
                        ),
                        ..ed
                    },
                ),
                ..old
            })
        } else {
            new == old
        },
        None => new == old,
    }
}

/// A click lands on the divider at the tree's right edge.
pub open spec fn on_divider(a: super::Rect, col: int, row: int) -> bool {
    let div = a.x + a.width;
    col + 1 >= div && col <= div + 1 && a.y <= row < a.y + a.height
}

/// `new` is `old` after a left click (`down`) or drag in the tree view.
pub open spec fn tree_clicked(old: App, new: App, col: int, row: int, down: bool) -> bool {
    let a = old.areas.tree;
    if old.dragging_split {
        new == (App { split_pct: split_at(old.areas, col) as u16, ..old })
    } else if down && on_divider(a, col, row) {
        new == (App { dragging_split: true, split_pct: split_at(old.areas, col) as u16, ..old })
    } else if hit_row(a, col, row, 1) {
        let idx = old.tree_offset + (row - a.y - 1);
        if idx < old.tree_rows@.len() {
            if down && idx == old.tree_sel {
                if on_leaf(old) {
                    new == (App { focus: Focus::Detail, ..old })
                } else {
                    expand_toggled(old, new)
                }
            } else {
                row_selected(old, new, idx)
            }
        } else {
            new == old
        }
    } else if in_rect(old.areas.detail, col, row) && down {
        new == (App { focus: Focus::Detail, ..old })
    } else {
        new == old
    }
}

/// The line of a log-like view a click at screen row `row` hits: the view
/// shows the `h` lines ending `off` lines before the last of `n`.
pub open spec fn clicked_line(a: super::Rect, row: int, n: int, off: int) -> int {
    let h = if a.height >= 2 {
        a.height - 2
    } else {
        0
    };
    let end = if n > off {
        n - off
    } else {
        0
    };
    let start = if end > h {
        end - h
    } else {
        0
    };
    start + (row - a.y - 1)
}

/// A list's scroll offset and follow flag after a click on line `abs` of
/// `n` (pinned there; following again when it is the last line).
pub open spec fn line_pinned(new_off: int, new_follow: bool, off: int, follow: bool, n: int, abs: int) -> bool {
    if abs < n {
        new_off == n - 1 - abs && new_follow == (n - 1 - abs == 0)
    } else {
        new_off == off && new_follow == follow
    }
}

/// `new` is `old` after a left click (`down`) or drag in the current view.
pub open spec fn view_clicked(old: App, new: App, col: int, row: int, down: bool) -> bool {
    match old.view {
        super::View::Tree => tree_clicked(old, new, col, row, down),
        super::View::Stats => {
            let a = old.areas.stats_table;
            let idx = old.stats_offset + (row - a.y - 2);
            if hit_row(a, col, row, 2) && idx < stats_rows_of(old.containers@, old.pattern()).len() {
                new == (App { stats_sel: idx as usize, ..old })
            } else {
                new == old
            }
        },
        super::View::Logs => {
            let a = old.areas.logs;
            let n = lines_of(strs(old.log_lines@), old.pattern()).len() as int;
            if hit_row(a, col, row, 1) {
                &&& line_pinned(
                    new.log_off as int,
                    new.log_follow,
                    old.log_off as int,
                    old.log_follow,
                    n,
                    clicked_line(a, row, n, old.log_off as int),
                )
                &&& new == (App { log_off: new.log_off, log_follow: new.log_follow, ..old })
            } else {
                new == old
            }
        },
        super::View::Events => {
            let a = old.areas.events;
            let n = events_of(old.events@, old.pattern()).len() as int;
            if hit_row(a, col, row, 1) {
                &&& line_pinned(
                    new.events_off as int,
                    new.events_follow,
                    old.events_off as int,
                    old.events_follow,
                    n,
                    clicked_line(a, row, n, old.events_off as int),
                )
                &&& new == (App { events_off: new.events_off, events_follow: new.events_follow, ..old })
            } else {
                new == old
            }
        },
        super::View::Files => {
            let a = old.areas.files;
            match old.files {
                Some(f) => {
                    let idx = f.offset + (row - a.y - 2);
                    let shown = files_shown(old);
                    if hit_row(a, col, row, 2) && idx < shown.len() {
                        if f.sel == idx && down && shown[idx].dir {
                            exists|m: App|
                                #[trigger] files_sel_set(old, m, idx) && files_navigated(
                                    m,
                                    new,
                                    child_of(f.path@, shown[idx].name@),
                                )
                        } else {
                            files_sel_set(old, new, idx)
                        }
                    } else {
                        new == old
                    }
                },
                None => new == old,
            }
        },
    }
}

/// `new` is `old` after a left click (`down`) or drag.
pub open spec fn left_clicked(old: App, new: App, col: int, row: int, down: bool) -> bool {
    if old.popup != Popup::Closed {
        if old.popup == Popup::Edit && old.env_editor is Some {
            if in_rect(old.areas.popup, col, row) {
                env_clicked(old, new, col, row)
            } else if down {
                env_closed(old, new)
            } else {
                new == old
            }
        } else if in_rect(old.areas.popup, col, row) {
            popup_clicked(old, new, col, row, down)
        } else if down {
            popup_closed(old, new)
        } else {
            new == old
        }
    } else {
        view_clicked(old, new, col, row, down)
    }
}

/// `new` is `old` after mouse event `ev` (ignored at the `/` prompt).
pub open spec fn mouse_handled(old: App, new: App, ev: Mouse) -> bool {
    if old.search.prompting {
        new == old
    } else {
        match ev.kind {
            MouseKind::ScrollUp => wheeled(old, new, ev.column as int, ev.row as int, -1),
            MouseKind::ScrollDown => wheeled(old, new, ev.column as int, ev.row as int, 1),
            MouseKind::Down => left_clicked(old, new, ev.column as int, ev.row as int, true),
            MouseKind::Drag => left_clicked(old, new, ev.column as int, ev.row as int, false),
            MouseKind::Up => new == (App { dragging_split: false, ..old }),
            MouseKind::Other => new == old,
        }
    }
}

/// `x + d` kept within `0..=hi`.
fn step_within(x: usize, d: i32, hi: usize) -> (r: usize)
    requires
        -1 <= d <= 1,
    ensures
        r == clamp(x + d, 0, hi as int),
{
    if d < 0 {
        if x == 0 {
            0
        } else if x - 1 > hi {
            hi
        } else {
            x - 1
        }
    } else if d > 0 {
        if x >= hi {
            hi
        } else {
            x + 1
        }
    } else if x > hi {
        hi
    } else {
        x
    }
}

/// A list's scroll offset and follow flag after the wheel moved `dir`.
fn wheel_step(off: usize, follow: bool, n: usize, dir: i32) -> (r: (usize, bool))
    ensures
        wheel_scrolled(r.0 as int, r.1, off as int, follow, n as int, dir as int),
{
    if n > 0 {
        if dir < 0 {
            (
                if off < n - 1 && off + 1 < n - 1 {
                    off + 1
                } else {
                    n - 1
                },
                false,
            )
        } else if off > 0 {
            (off - 1, follow || off - 1 == 0)
        } else {
            (off, follow)
        }
    } else {
        (off, follow)
    }
}

/// A list's scroll offset and follow flag after a click at screen row
/// `row` of region `a`.
fn click_step(a: super::Rect, row: u16, n: usize, off: usize, follow: bool) -> (r: (usize, bool))
    requires
        row > a.y,
    ensures
        line_pinned(r.0 as int, r.1, off as int, follow, n as int, clicked_line(a, row as int, n as int, off as int)),
{
    let h: usize = if a.height >= 2 {
        (a.height - 2) as usize
    } else {
        0
    };
    let end = if n > off {
        n - off
    } else {
        0
    };
    let start = if end > h {
        end - h
    } else {
        0
    };
    let p = (row - a.y - 1) as usize;
    if start < n && p < n - start {
        let abs = start + p;
        let o = n - 1 - abs;
        (o, o == 0)
    } else {
        (off, follow)
    }
}

impl App {
    /// Handles a mouse event.
    pub fn handle_mouse(&mut self, ev: Mouse)
        requires
            old(self).wf(),
        ensures
            mouse_handled(*old(self), *final(self), ev),
            final(self).wf(),
    {
        if self.search.prompting {
            return;
        }
        match ev.kind {
            MouseKind::ScrollUp => self.mouse_scroll(ev.column, ev.row, -1),
            MouseKind::ScrollDown => self.mouse_scroll(ev.column, ev.row, 1),
            MouseKind::Down => self.mouse_left(ev.column, ev.row, true),
            MouseKind::Drag => self.mouse_left(ev.column, ev.row, false),
            MouseKind::Up => {
                self.dragging_split = false;
            },
            MouseKind::Other => {},
        }
    }

    /// The wheel moved `dir` over a popup.
    fn popup_scroll(&mut self, col: u16, row: u16, dir: i32)
        requires
            old(self).wf(),
            dir == -1 || dir == 1,
        ensures
            popup_wheeled(*old(self), *final(self), col as int, row as int, dir as int),
            final(self).wf(),
    {
        let inside = contains(self.areas.popup_list, col, row);
        if self.popup == Popup::Edit && self.env_editor.is_some() {
            if inside {
                match self.env_editor.take() {
                    Some(mut ed) => {
                        let n = ed.rows.len();
                        if n > 1 {
                            ed.sel = step_within(ed.sel, dir, n - 1);
                            ed.editing = None;
                        }
                        self.env_editor = Some(ed);
                    },
                    None => {},
                }
            }
            return;
        }
        if !inside {
            return;
        }
        if self.popup == Popup::Edit {
            match self.edit.take() {
                Some(mut f) => {
                    let n = f.fields.len();
                    f.sel = step_within(f.sel, dir, n);
                    self.edit = Some(f);
                },
                None => {},
            }
            return;
        }
        let n: usize = match self.popup {
            Popup::Context => self.contexts.len(),
            Popup::ContainerSelect => self.containers.len(),
            Popup::Ops => self.ops.len(),
            Popup::Exec => 3,
            _ => 0,
        };
        if n > 0 {
            self.popup_sel = step_within(self.popup_sel, dir, n - 1);
        }
    }

    /// The wheel moved `dir` over cell (`col`, `row`).
    pub fn mouse_scroll(&mut self, col: u16, row: u16, dir: i32)
        requires
            old(self).wf(),
            dir == -1 || dir == 1,
        ensures
            wheeled(*old(self), *final(self), col as int, row as int, dir as int),
            final(self).wf(),
    {
        if self.popup != Popup::Closed {
            self.popup_scroll(col, row, dir);
            return;
        }
        match self.view {
            super::View::Tree => {
                if contains(self.areas.detail, col, row) {
                    if dir < 0 {
                        if self.detail_scroll > 0 {
                            self.detail_scroll = self.detail_scroll - 1;
                        }
                    } else {
                        let n = crate::detail::detail_line_count(self);
                        let max = if n > 0 {
                            n - 1
                        } else {
                            0
                        };
                        if (self.detail_scroll as usize) < max && self.detail_scroll < u16::MAX {
                            self.detail_scroll = self.detail_scroll + 1;
                        }
                    }
                } else if contains(self.areas.tree, col, row) {
                    self.tree_move(dir);
                }
            },
            super::View::Stats => {
                if contains(self.areas.stats_table, col, row) {
                    let n = self.stats_rows().len();
                    if n > 0 {
                        self.stats_sel = step_within(self.stats_sel, dir, n - 1);
                    }
                }
            },
            super::View::Logs => {
                let n = self.visible_log_lines().len();
                let (o, f) = wheel_step(self.log_off, self.log_follow, n, dir);
                self.log_off = o;
                self.log_follow = f;
            },
            super::View::Events => {
                let n = self.visible_events().len();
                let (o, f) = wheel_step(self.events_off, self.events_follow, n, dir);
                self.events_off = o;
                self.events_follow = f;
            },
            super::View::Files => {
                let n = self.visible_files().len();
                if n > 0 {
                    let sel = match &self.files {
                        Some(f) => f.sel,
                        None => 0,
                    };
                    match self.files.take() {
                        Some(mut f) => {
                            f.sel = step_within(sel, dir, n - 1);
                            self.files = Some(f);
                        },
                        None => {},
                    }
                }
            },
        }
    }

    /// A left click (`down`) or drag at cell (`col`, `row`).
    pub fn mouse_left(&mut self, col: u16, row: u16, down: bool)
        requires
            old(self).wf(),
        ensures
            left_clicked(*old(self), *final(self), col as int, row as int, down),
            final(self).wf(),
    {
        if self.popup != Popup::Closed {
            if self.popup == Popup::Edit && self.env_editor.is_some() {
                if contains(self.areas.popup, col, row) {
                    self.mouse_env_select(col, row);
                } else if down {
                    self.close_env_editor();
                }
                return;
            }
            if contains(self.areas.popup, col, row) {
                self.mouse_popup_select(col, row, down);
            } else if down {
                self.close_popup();
            }
            return;
        }
        match self.view {
            super::View::Tree => self.tree_click(col, row, down),
            super::View::Stats => {
                let a = self.areas.stats_table;
                if contains(a, col, row) && (row as u32) > (a.y as u32) + 1 && (row as u32) + 1 < (
                a.y as u32) + (a.height as u32) {
                    let p = (row - a.y - 2) as usize;
                    let n = self.stats_rows().len();
                    if self.stats_offset < n && p < n - self.stats_offset {
                        self.stats_sel = self.stats_offset + p;
                    }
                }
            },
            super::View::Logs => {
                let a = self.areas.logs;
                if contains(a, col, row) && row > a.y && (row as u32) + 1 < (a.y as u32) + (
                a.height as u32) {
                    let n = self.visible_log_lines().len();
                    let (o, f) = click_step(a, row, n, self.log_off, self.log_follow);
                    self.log_off = o;
                    self.log_follow = f;
                }
            },
            super::View::Events => {
                let a = self.areas.events;
                if contains(a, col, row) && row > a.y && (row as u32) + 1 < (a.y as u32) + (
                a.height as u32) {
                    let n = self.visible_events().len();
                    let (o, f) = click_step(a, row, n, self.events_off, self.events_follow);
                    self.events_off = o;
                    self.events_follow = f;
                }
            },
            super::View::Files => self.files_click(col, row, down),
        }
    }

    /// A left click (`down`) or drag in the tree view.
    fn tree_click(&mut self, col: u16, row: u16, down: bool)
        requires
            old(self).wf(),
            old(self).popup == Popup::Closed,
            old(self).view == super::View::Tree,
        ensures
            tree_clicked(*old(self), *final(self), col as int, row as int, down),
            final(self).wf(),
    {
        if self.dragging_split {
            self.set_split_from_col(col);
            return;
        }
        let a = self.areas.tree;
        let div = a.x as u32 + a.width as u32;
        if down && (col as u32) + 1 >= div && (col as u32) <= div + 1 && row >= a.y && (row as u32)
            < (a.y as u32) + (a.height as u32) {
            self.dragging_split = true;
            self.set_split_from_col(col);
            return;
        }
        if contains(a, col, row) && row > a.y && (row as u32) + 1 < (a.y as u32) + (a.height as u32) {
            let p = (row - a.y - 1) as usize;
            let n = self.tree_rows.len();
            if self.tree_offset < n && p < n - self.tree_offset {
                let idx = self.tree_offset + p;
                if down && idx == self.tree_sel {
                    let leaf = !self.tree_rows[idx].has_children && match &self.tree_rows[idx].kind {
                        crate::tree::RowKind::Container(_) | crate::tree::RowKind::Volume(_) => true,
                        _ => false,
                    };
                    if leaf {
                        self.focus = Focus::Detail;
                    } else {
                        self.toggle_expand();
                    }
                } else {
                    self.select_row(idx);
                }
            }
        } else if contains(self.areas.detail, col, row) && down {
            self.focus = Focus::Detail;
        }
    }

    /// A left click (`down`) or drag in the files view.
    fn files_click(&mut self, col: u16, row: u16, down: bool)
        requires
            old(self).wf(),
            old(self).popup == Popup::Closed,
            old(self).view == super::View::Files,
        ensures
            view_clicked(*old(self), *final(self), col as int, row as int, down),
            final(self).wf(),
    {
        let a = self.areas.files;
        if !(contains(a, col, row) && (row as u32) > (a.y as u32) + 1 && (row as u32) + 1 < (a.y as u32)
            + (a.height as u32)) {
            return;
        }
        let (offset, sel, path) = match &self.files {
            Some(f) => (f.offset, f.sel, f.path.clone()),
            None => {
                return;
            },
        };
        let p = (row - a.y - 2) as usize;
        let target = {
            let shown = self.visible_files();
            let n = shown.len();
            if offset >= n || p >= n - offset {
                return;
            }
            let idx = offset + p;
            (idx, shown[idx].dir, shown[idx].name.clone())
        };
        let (idx, dir, name) = target;
        let ghost before = *self;
        match self.files.take() {
            Some(mut f) => {
                f.sel = idx;
                self.files = Some(f);
            },
            None => {},
        }
        if sel == idx && down && dir {
            let ghost m = *self;
            self.files_enter(name.as_str());
            assert(files_sel_set(before, m, idx as int));
        }
    }

    /// A click or drag inside the open popup.
    #[verifier::rlimit(60)]
    fn mouse_popup_select(&mut self, col: u16, row: u16, down: bool)
        requires
            old(self).wf(),
        ensures
            popup_clicked(*old(self), *final(self), col as int, row as int, down),
            final(self).wf(),
    {
        let a = self.areas.popup_list;
        if !contains(a, col, row) {
            return;
        }
        let p = (row - a.y) as usize;
        if self.popup == Popup::Edit {
            let mut f = match self.edit.take() {
                Some(f) => f,
                None => {
                    return;
                },
            };
            let field = if p >= 2 {
                p - 2
            } else {
                0
            };
            if field > f.fields.len() {
                self.edit = Some(f);
                return;
            }
            let is_env = field < f.fields.len() && crate::text::eq_str(f.fields[field].label, "Env");
            f.sel = field;
            if is_env && down {
                let ed = EnvEditor::from_text(f.text("Env"));
                self.env_editor = Some(ed);
            }
            self.edit = Some(f);
            return;
        }
        let n: usize = match self.popup {
            Popup::Context => self.contexts.len(),
            Popup::ContainerSelect => self.containers.len(),
            Popup::Ops => self.ops.len(),
            Popup::Exec => 3,
            _ => 0,
        };
        if self.popup_offset < n && p < n - self.popup_offset {
            self.popup_sel = self.popup_offset + p;
        }
    }

    /// A click in the env editor's table: select the row and edit the cell
    /// clicked.
    fn mouse_env_select(&mut self, col: u16, row: u16)
        requires
            old(self).wf(),
        ensures
            env_clicked(*old(self), *final(self), col as int, row as int),
            final(self).wf(),
    {
        let a = self.areas.popup_list;
        if !contains(a, col, row) {
            return;
        }
        let idx = (row - a.y) as usize;
        let cell = if col < self.areas.env_split_x {
            EnvCol::Key
        } else {
            EnvCol::Value
        };
        match self.env_editor.take() {
            Some(mut ed) => {
                if idx < ed.rows.len() {
                    ed.sel = idx;
                    ed.editing = Some(cell);
                }
                self.env_editor = Some(ed);
            },
            None => {},
        }
    }
}

/// Clicking a log or event line pins the view so that line is the newest
/// one shown (`off = len - 1 - line`); following resumes only when it is
/// the last line.
pub proof fn lemma_click_pins_line(new_off: int, new_follow: bool, off: int, follow: bool, n: int, abs: int)
    requires
        line_pinned(new_off, new_follow, off, follow, n, abs),
        0 <= abs < n,
    ensures
        n - 1 - new_off == abs,
        new_follow <==> abs == n - 1,
{
}


/// Clicking outside an open popup closes it and drops what it held (an
/// action awaiting confirmation, the edit form, a typed user name); with
/// the env table open, the click closes the table instead.
pub proof fn lemma_click_outside_closes(old: App, new: App, ev: Mouse)
    requires
        mouse_handled(old, new, ev),
        !old.search.prompting,
        ev.kind == MouseKind::Down,
        old.popup != Popup::Closed,
        !in_rect(old.areas.popup, ev.column as int, ev.row as int),
        !(old.popup == Popup::Edit && old.env_editor is Some),
    ensures
        new.popup == Popup::Closed,
        new.pending is None,
        new.edit is None,
        new.env_editor is None,
        new.exec_user_input is None,
        new.view == old.view,
        new.containers == old.containers,
{
}


} // verus!
