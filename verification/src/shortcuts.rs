//! Keyboard shortcuts: which state change and which outside action a key
//! press asks for.

use vstd::prelude::*;

use crate::app::{ActivePanel, ActiveTool, AppView, TabView, UltraLogApp};

verus! {

/// Keys that have shortcuts.
#[derive(Clone, Copy, Debug, PartialEq, Eq, Structural)]
pub enum Key {
    O,
    W,
    Comma,
    Num1,
    Num2,
    Num3,
    F,
    C,
    T,
    ArrowLeft,
    ArrowRight,
    Home,
    End,
    Space,
}

/// The keyboard state of one frame.
pub struct ShortcutInput {
    /// Whether a widget has keyboard focus (shortcuts are then off).
    pub focused: bool,
    /// Whether the command modifier is held.
    pub command: bool,
    /// Whether shift is held.
    pub shift: bool,
    /// Keys pressed this frame.
    pub pressed: Vec<Key>,
}

/// Which shortcut a frame's keys select, in order of precedence.
#[derive(Clone, Copy, Debug, PartialEq, Eq)]
pub enum Shortcut {
    Nothing,
    OpenFile,
    CloseTab,
    Panel(ActivePanel),
    Tool(ActiveTool),
    StepBack,
    StepForward,
    Home,
    End,
    TogglePlay,
}

/// What is left for the caller to do after a shortcut.
#[derive(Clone, Copy, Debug, PartialEq, Eq)]
pub enum ShortcutAction {
    /// Nothing.
    Nothing,
    /// Show the file dialog and load the chosen file.
    OpenFile,
    /// Playback was stopped: reset the frame timer.
    StopPlayback,
    /// Playback was stopped and the cursor moved to this record: reset the
    /// frame timer and move the cursor time to the record's time.
    StepRecord(usize),
    /// Playback was stopped: move the cursor to the start of the time range.
    JumpToStart,
    /// Playback was stopped: move the cursor to the end of the time range.
    JumpToEnd,
    /// Playback was toggled: when it started, reset the frame timer and put
    /// the cursor at the start if it has none.
    PlaybackToggled,
}

/// The shortcut that a frame's keys select.
pub open spec fn select_shortcut(app: AppView, focused: bool, command: bool, shift: bool, keys: Seq<Key>) -> Shortcut {
    if focused {
        Shortcut::Nothing
    } else if command && keys.contains(Key::O) {
        Shortcut::OpenFile
    } else if command && keys.contains(Key::W) {
        Shortcut::CloseTab
    } else if command && keys.contains(Key::Comma) {
        Shortcut::Panel(ActivePanel::Settings)
    } else if command && !shift && keys.contains(Key::Num1) {
        Shortcut::Tool(ActiveTool::LogViewer)
    } else if command && !shift && keys.contains(Key::Num2) {
        Shortcut::Tool(ActiveTool::ScatterPlot)
    } else if command && !shift && keys.contains(Key::Num3) {
        Shortcut::Tool(ActiveTool::Histogram)
    } else if command && shift && keys.contains(Key::F) {
        Shortcut::Panel(ActivePanel::Files)
    } else if command && shift && keys.contains(Key::C) {
        Shortcut::Panel(ActivePanel::ToolProperties)
    } else if command && shift && keys.contains(Key::T) {
        Shortcut::Panel(ActivePanel::Tools)
    } else if app.files.len() == 0 || app.selected_channels().len() == 0 {
        Shortcut::Nothing
    } else if keys.contains(Key::ArrowLeft) {
        Shortcut::StepBack
    } else if keys.contains(Key::ArrowRight) {
        Shortcut::StepForward
    } else if keys.contains(Key::Home) {
        Shortcut::Home
    } else if keys.contains(Key::End) {
        Shortcut::End
    } else if keys.contains(Key::Space) {
        Shortcut::TogglePlay
    } else {
        Shortcut::Nothing
    }
}

impl AppView {
    /// Number of records of the active tab's file, when there is an active
    /// tab, its file exists and has records.
    pub open spec fn active_record_count(self) -> Option<usize> {
        match self.active_tab {
            Some(t) => {
                let f = self.tabs[t as int].file_index;
                if f < self.files.len() && self.files[f as int].record_count > 0 {
                    Some(self.files[f as int].record_count)
                } else {
                    None
                }
            },
            None => None,
        }
    }

    /// The cursor record of the active tab, 0 when unset.
    pub open spec fn current_record(self) -> usize {
        match self.active_tab {
            Some(t) => match self.tabs[t as int].cursor_record {
                Some(r) => r,
                None => 0,
            },
            None => 0,
        }
    }

    /// The state with the active tab's cursor record set to `r`.
    pub open spec fn with_cursor_record(self, r: usize) -> AppView {
        let t = self.active_tab->0 as int;
        self.with_tab(t, TabView { cursor_record: Some(r), ..self.tabs[t] })
    }

    /// The state and remaining action after a frame's keys.
    pub open spec fn shortcut(self, focused: bool, command: bool, shift: bool, keys: Seq<Key>) -> (AppView, ShortcutAction) {
        let step: usize = if shift {
            10
        } else {
            1
        };
        match select_shortcut(self, focused, command, shift, keys) {
            Shortcut::Nothing => (self, ShortcutAction::Nothing),
            Shortcut::OpenFile => (self, ShortcutAction::OpenFile),
            Shortcut::CloseTab => (
                match self.active_tab {
                    Some(t) => self.close_tab(t),
                    None => self,
                },
                ShortcutAction::Nothing,
            ),
            Shortcut::Panel(p) => (AppView { active_panel: p, ..self }, ShortcutAction::Nothing),
            Shortcut::Tool(tool) => (AppView { active_tool: tool, ..self }, ShortcutAction::Nothing),
            Shortcut::StepBack => {
                let stopped = AppView { is_playing: false, ..self };
                match self.active_record_count() {
                    Some(_) => {
                        let r = if self.current_record() >= step {
                            (self.current_record() - step) as usize
                        } else {
                            0usize
                        };
                        (stopped.with_cursor_record(r), ShortcutAction::StepRecord(r))
                    },
                    None => (stopped, ShortcutAction::StopPlayback),
                }
            },
            Shortcut::StepForward => {
                let stopped = AppView { is_playing: false, ..self };
                match self.active_record_count() {
                    Some(n) => {
                        let r = if self.current_record() + step <= n - 1 {
                            (self.current_record() + step) as usize
                        } else {
                            (n - 1) as usize
                        };
                        (stopped.with_cursor_record(r), ShortcutAction::StepRecord(r))
                    },
                    None => (stopped, ShortcutAction::StopPlayback),
                }
            },
            Shortcut::Home => (AppView { is_playing: false, ..self }, ShortcutAction::JumpToStart),
            Shortcut::End => (AppView { is_playing: false, ..self }, ShortcutAction::JumpToEnd),
            Shortcut::TogglePlay => (
                AppView { is_playing: !self.is_playing, ..self },
                ShortcutAction::PlaybackToggled,
            ),
        }
    }
}

/// Whether `keys` holds `k`.
fn key_pressed(keys: &Vec<Key>, k: Key) -> (b: bool)
    ensures
        b == keys@.contains(k),
{
    let mut i: usize = 0;
    while i < keys.len()
        invariant
            i <= keys.len(),
            forall|j: int| 0 <= j < i ==> keys@[j] != k,
        decreases keys.len() - i,
    {
        if keys[i] == k {
            return true;
        }
        i = i + 1;
    }
    false
}

impl UltraLogApp {
    /// The shortcut that a frame's keys select.
    pub fn selected_shortcut(&self, input: &ShortcutInput) -> (s: Shortcut)
        requires
            self@.wf(),
        ensures
            s == select_shortcut(self@, input.focused, input.command, input.shift, input.pressed@),
    {
        if input.focused {
            return Shortcut::Nothing;
        }
        let keys = &input.pressed;
        let cmd = input.command;
        let shift = input.shift;
        if cmd && key_pressed(keys, Key::O) {
            return Shortcut::OpenFile;
        }
        if cmd && key_pressed(keys, Key::W) {
            return Shortcut::CloseTab;
        }
        if cmd && key_pressed(keys, Key::Comma) {
            return Shortcut::Panel(ActivePanel::Settings);
        }
        if cmd && !shift {
            if key_pressed(keys, Key::Num1) {
                return Shortcut::Tool(ActiveTool::LogViewer);
            }
            if key_pressed(keys, Key::Num2) {
                return Shortcut::Tool(ActiveTool::ScatterPlot);
            }
            if key_pressed(keys, Key::Num3) {
                return Shortcut::Tool(ActiveTool::Histogram);
            }
        }
        if cmd && shift {
            if key_pressed(keys, Key::F) {
                return Shortcut::Panel(ActivePanel::Files);
            }
            if key_pressed(keys, Key::C) {
                return Shortcut::Panel(ActivePanel::ToolProperties);
            }
            if key_pressed(keys, Key::T) {
                return Shortcut::Panel(ActivePanel::Tools);
            }
        }
        if self.files.len() == 0 || self.get_selected_channels().len() == 0 {
            return Shortcut::Nothing;
        }
        if key_pressed(keys, Key::ArrowLeft) {
            return Shortcut::StepBack;
        }
        if key_pressed(keys, Key::ArrowRight) {
            return Shortcut::StepForward;
        }
        if key_pressed(keys, Key::Home) {
            return Shortcut::Home;
        }
        if key_pressed(keys, Key::End) {
            return Shortcut::End;
        }
        if key_pressed(keys, Key::Space) {
            return Shortcut::TogglePlay;
        }
        Shortcut::Nothing
    }

    /// Applies the keyboard shortcuts of one frame and returns what is left
    /// for the caller to do.
    pub fn handle_keyboard_shortcuts(&mut self, input: &ShortcutInput) -> (action: ShortcutAction)
        requires
            old(self)@.wf(),
            select_shortcut(
                old(self)@,
                input.focused,
                input.command,
                input.shift,
                input.pressed@,
            ) == Shortcut::StepForward && old(self)@.active_record_count() is Some
                ==> old(self)@.current_record() + (if input.shift {
                10int
            } else {
                1int
            }) <= usize::MAX,
        ensures
            (final(self)@, action) == old(self)@.shortcut(
                input.focused,
                input.command,
                input.shift,
                input.pressed@,
            ),
    {
        let step: usize = if input.shift {
            10
        } else {
            1
        };
        match self.selected_shortcut(input) {
            Shortcut::Nothing => ShortcutAction::Nothing,
            Shortcut::OpenFile => ShortcutAction::OpenFile,
            Shortcut::CloseTab => {
                if let Some(t) = self.active_tab {
                    self.close_tab(t);
                }
                ShortcutAction::Nothing
            },
            Shortcut::Panel(p) => {
                self.active_panel = p;
                ShortcutAction::Nothing
            },
            Shortcut::Tool(tool) => {
                self.active_tool = tool;
                ShortcutAction::Nothing
            },
            Shortcut::StepBack => {
                self.is_playing = false;
                if let Some(n) = self.record_count_of_active() {
                    let current = match self.get_cursor_record() {
                        Some(r) => r,
                        None => 0,
                    };
                    let r = current.saturating_sub(step);
                    self.set_cursor_record(Some(r));
                    ShortcutAction::StepRecord(r)
                } else {
                    ShortcutAction::StopPlayback
                }
            },
            Shortcut::StepForward => {
                self.is_playing = false;
                if let Some(n) = self.record_count_of_active() {
                    let current = match self.get_cursor_record() {
                        Some(r) => r,
                        None => 0,
                    };
                    let next = current + step;
                    let r = if next <= n - 1 {
                        next
                    } else {
                        n - 1
                    };
                    self.set_cursor_record(Some(r));
                    ShortcutAction::StepRecord(r)
                } else {
                    ShortcutAction::StopPlayback
                }
            },
            Shortcut::Home => {
                self.is_playing = false;
                ShortcutAction::JumpToStart
            },
            Shortcut::End => {
                self.is_playing = false;
                ShortcutAction::JumpToEnd
            },
            Shortcut::TogglePlay => {
                self.is_playing = !self.is_playing;
                ShortcutAction::PlaybackToggled
            },
        }
    }

    /// Number of records of the active tab's file, when there is an active
    /// tab, its file exists and has records.
    fn record_count_of_active(&self) -> (n: Option<usize>)
        requires
            self@.wf(),
        ensures
            n == self@.active_record_count(),
    {
        match self.active_tab {
            Some(t) => {
                let f = self.tabs[t].file_index;
                if f < self.files.len() && self.files[f].record_count > 0 {
                    Some(self.files[f].record_count)
                } else {
                    None
                }
            },
            None => None,
        }
    }
}

/// A keyboard shortcut keeps the state well-formed. Stepping moves the
/// active tab's cursor by one record, or by ten with shift: back to no
/// less than the first record, forward to no more than the last; the new
/// cursor record is the one reported, and playback stops.
pub proof fn law_shortcut(app: AppView, focused: bool, command: bool, shift: bool, keys: Seq<Key>)
    requires
        app.wf(),
    ensures
        app.shortcut(focused, command, shift, keys).0.wf(),
        select_shortcut(app, focused, command, shift, keys) == Shortcut::StepForward ==> (app.shortcut(
            focused,
            command,
            shift,
            keys,
        ).1 matches ShortcutAction::StepRecord(r) ==> r < app.active_record_count()->0),
        select_shortcut(app, focused, command, shift, keys) == Shortcut::StepBack ==> (app.shortcut(
            focused,
            command,
            shift,
            keys,
        ).1 matches ShortcutAction::StepRecord(r) ==> r <= app.current_record()),
        ({
            let (next, action) = app.shortcut(focused, command, shift, keys);
            let step: int = if shift {
                10
            } else {
                1
            };
            let cur = app.current_record() as int;
            let s = select_shortcut(app, focused, command, shift, keys);
            (s == Shortcut::StepBack || s == Shortcut::StepForward) && app.active_record_count() is Some
                ==> {
                let n = app.active_record_count()->0 as int;
                let r: int = if s == Shortcut::StepBack {
                    if cur >= step {
                        cur - step
                    } else {
                        0
                    }
                } else if cur + step <= n - 1 {
                    cur + step
                } else {
                    n - 1
                };
                &&& action == ShortcutAction::StepRecord(r as usize)
                &&& next.active_tab == app.active_tab
                &&& next.current_record() == r
                &&& next.tabs[next.active_tab->0 as int].cursor_record == Some(r as usize)
                &&& !next.is_playing
            }
        }),
{
    match select_shortcut(app, focused, command, shift, keys) {
        Shortcut::CloseTab => {
            if let Some(t) = app.active_tab {
                crate::app_laws::law_close_tab_wf(app, t);
            }
        },
        Shortcut::StepBack | Shortcut::StepForward => {
            if app.active_record_count() is Some {
                let a2 = app.shortcut(focused, command, shift, keys).0;
                assert forall|i: int| 0 <= i < a2.tabs.len() implies #[trigger] a2.tabs[i].file_index
                    == app.tabs[i].file_index by {}
            }
        },
        _ => {},
    }
}

/// What single keys do: with the command key, O opens a file and W closes
/// the active tab (O first when both are pressed); without it, once a file
/// is loaded and a channel selected, Arrow Left and Arrow Right step
/// through the records, Home and End jump to the ends of the log, and Space
/// toggles playback. Nothing happens while a widget has focus. Jumping to
/// an end stops playback and changes nothing else; toggling flips playback
/// and changes nothing else; opening a file changes nothing.
pub proof fn law_shortcut_keys(app: AppView, shift: bool)
    ensures
        forall|command: bool, keys: Seq<Key>|
            #[trigger] app.shortcut(true, command, shift, keys) == (app, ShortcutAction::Nothing),
        app.shortcut(false, true, shift, seq![Key::O]) == (app, ShortcutAction::OpenFile),
        select_shortcut(app, false, true, shift, seq![Key::W, Key::O]) == Shortcut::OpenFile,
        select_shortcut(app, false, true, shift, seq![Key::W]) == Shortcut::CloseTab,
        app.files.len() > 0 && app.selected_channels().len() > 0 ==> {
            &&& select_shortcut(app, false, false, shift, seq![Key::ArrowLeft])
                == Shortcut::StepBack
            &&& select_shortcut(app, false, false, shift, seq![Key::ArrowRight])
                == Shortcut::StepForward
            &&& app.shortcut(false, false, shift, seq![Key::Home]) == (
                AppView { is_playing: false, ..app },
                ShortcutAction::JumpToStart,
            )
            &&& app.shortcut(false, false, shift, seq![Key::End]) == (
                AppView { is_playing: false, ..app },
                ShortcutAction::JumpToEnd,
            )
            &&& app.shortcut(false, false, shift, seq![Key::Space]) == (
                AppView { is_playing: !app.is_playing, ..app },
                ShortcutAction::PlaybackToggled,
            )
        },
        app.files.len() == 0 ==> forall|keys: Seq<Key>|
            #[trigger] app.shortcut(false, false, shift, keys) == (app, ShortcutAction::Nothing),
{
    assert(seq![Key::W, Key::O][1] == Key::O);
    assert(seq![Key::W][0] == Key::W);
    assert(!seq![Key::W].contains(Key::O));
    assert(seq![Key::O][0] == Key::O);
    assert(seq![Key::ArrowLeft][0] == Key::ArrowLeft);
    assert(seq![Key::ArrowRight][0] == Key::ArrowRight);
    assert(!seq![Key::ArrowRight].contains(Key::ArrowLeft));
    assert(seq![Key::Home][0] == Key::Home);
    assert(!seq![Key::Home].contains(Key::ArrowLeft));
    assert(!seq![Key::Home].contains(Key::ArrowRight));
    assert(seq![Key::End][0] == Key::End);
    assert(!seq![Key::End].contains(Key::ArrowLeft));
    assert(!seq![Key::End].contains(Key::ArrowRight));
    assert(!seq![Key::End].contains(Key::Home));
    assert(seq![Key::Space][0] == Key::Space);
    assert(!seq![Key::Space].contains(Key::ArrowLeft));
    assert(!seq![Key::Space].contains(Key::ArrowRight));
    assert(!seq![Key::Space].contains(Key::Home));
    assert(!seq![Key::Space].contains(Key::End));
}

} // verus!
