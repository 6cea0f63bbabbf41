//! The cyclic view and interaction modes of the viewer.

use vstd::prelude::*;

verus! {

/// What a click-and-drag in the plot does.
#[derive(Clone, Copy, Debug, PartialEq, Eq, Structural)]
pub enum PlotterMode {
    /// Select, shift and scale spectra.
    Display,
    /// Define an integration window.
    Integrate,
}

impl PlotterMode {
    /// The mode that follows this one when the user cycles through the modes.
    pub open spec fn spec_next(self) -> PlotterMode {
        match self {
            PlotterMode::Display => PlotterMode::Integrate,
            PlotterMode::Integrate => PlotterMode::Display,
        }
    }

    /// Returns the next mode in the cycle; `self` is left as it is.
    pub fn next(&mut self) -> (res: PlotterMode)
        ensures
            res == old(self).spec_next(),
            *final(self) == *old(self),
    {
        match self {
            PlotterMode::Display => PlotterMode::Integrate,
            PlotterMode::Integrate => PlotterMode::Display,
        }
    }
}

/// Which main view is shown.
#[derive(Clone, Copy, Debug, PartialEq, Eq, Structural)]
pub enum UISelection {
    Plot,
    FileSettings,
    Preferences,
}

impl UISelection {
    /// The view that follows this one when the user cycles through the views;
    /// the preferences are left for the plot.
    pub open spec fn spec_next(self) -> UISelection {
        match self {
            UISelection::Plot => UISelection::FileSettings,
            UISelection::FileSettings => UISelection::Plot,
            UISelection::Preferences => UISelection::Plot,
        }
    }

    pub fn next(&self) -> (res: UISelection)
        ensures
            res == self.spec_next(),
    {
        match self {
            UISelection::Plot => UISelection::FileSettings,
            UISelection::FileSettings => UISelection::Plot,
            UISelection::Preferences => UISelection::Plot,
        }
    }
}

/// A key the main window reacts to.
#[derive(Clone, Copy, Debug, PartialEq, Eq, Structural)]
pub enum ShortcutKey {
    F1,
    F3,
    F4,
    F5,
    F6,
    F10,
    F12,
    S,
    L,
    P,
}

/// What a key press asks the main window to do.
#[derive(Clone, Copy, Debug, PartialEq, Eq, Structural)]
pub enum ShortcutAction {
    /// Show or hide the list of shortcuts.
    ToggleHelp,
    /// Go to the next main view.
    CycleView,
    /// Go to the next plotter mode.
    CycleMode,
    /// Load the quick-saved session.
    QuickLoad,
    /// Save the session quickly.
    QuickSave,
    /// Close the window.
    Quit,
    /// Show the preferences.
    OpenPreferences,
    /// Ask where to save the session.
    SaveDialog,
    /// Ask which session to load.
    LoadDialog,
    /// Ask where to export the plot.
    ExportDialog,
    /// Nothing.
    Nothing,
}

/// The action of a key: the function keys act alone, `S`, `L` and `P` only
/// with Ctrl held.
pub open spec fn spec_shortcut_action(key: ShortcutKey, ctrl: bool) -> ShortcutAction {
    match key {
        ShortcutKey::F1 => ShortcutAction::ToggleHelp,
        ShortcutKey::F3 => ShortcutAction::CycleView,
        ShortcutKey::F4 => ShortcutAction::CycleMode,
        ShortcutKey::F5 => ShortcutAction::QuickLoad,
        ShortcutKey::F6 => ShortcutAction::QuickSave,
        ShortcutKey::F10 => ShortcutAction::Quit,
        ShortcutKey::F12 => ShortcutAction::OpenPreferences,
        ShortcutKey::S => if ctrl { ShortcutAction::SaveDialog } else { ShortcutAction::Nothing },
        ShortcutKey::L => if ctrl { ShortcutAction::LoadDialog } else { ShortcutAction::Nothing },
        ShortcutKey::P => if ctrl { ShortcutAction::ExportDialog } else { ShortcutAction::Nothing },
    }
}

pub fn shortcut_action(key: ShortcutKey, ctrl: bool) -> (r: ShortcutAction)
    ensures
        r == spec_shortcut_action(key, ctrl),
{
    match key {
        ShortcutKey::F1 => ShortcutAction::ToggleHelp,
        ShortcutKey::F3 => ShortcutAction::CycleView,
        ShortcutKey::F4 => ShortcutAction::CycleMode,
        ShortcutKey::F5 => ShortcutAction::QuickLoad,
        ShortcutKey::F6 => ShortcutAction::QuickSave,
        ShortcutKey::F10 => ShortcutAction::Quit,
        ShortcutKey::F12 => ShortcutAction::OpenPreferences,
        ShortcutKey::S => if ctrl { ShortcutAction::SaveDialog } else { ShortcutAction::Nothing },
        ShortcutKey::L => if ctrl { ShortcutAction::LoadDialog } else { ShortcutAction::Nothing },
        ShortcutKey::P => if ctrl { ShortcutAction::ExportDialog } else { ShortcutAction::Nothing },
    }
}

/// What the shortcuts change of the main window: whether the list of
/// shortcuts is shown, the main view and the plotter mode.
#[derive(Clone, Copy, Debug, PartialEq, Eq, Structural)]
pub struct WindowState {
    pub help_open: bool,
    pub view: UISelection,
    pub mode: PlotterMode,
}

impl WindowState {
    /// The window after an action; the actions that load, save, ask or quit
    /// leave it as it is.
    pub open spec fn spec_after(self, a: ShortcutAction) -> WindowState {
        match a {
            ShortcutAction::ToggleHelp => WindowState { help_open: !self.help_open, ..self },
            ShortcutAction::CycleView => WindowState { view: self.view.spec_next(), ..self },
            ShortcutAction::CycleMode => WindowState { mode: self.mode.spec_next(), ..self },
            ShortcutAction::OpenPreferences => WindowState { view: UISelection::Preferences, ..self },
            _ => self,
        }
    }

    /// The window as it opens: no help, the plot, display mode.
    pub fn new() -> (r: WindowState)
        ensures
            r == (WindowState { help_open: false, view: UISelection::Plot, mode: PlotterMode::Display }),
    {
        WindowState { help_open: false, view: UISelection::Plot, mode: PlotterMode::Display }
    }

    pub fn apply(&mut self, a: ShortcutAction)
        ensures
            *final(self) == old(self).spec_after(a),
    {
        match a {
            ShortcutAction::ToggleHelp => {
                self.help_open = !self.help_open;
            },
            ShortcutAction::CycleView => {
                self.view = self.view.next();
            },
            ShortcutAction::CycleMode => {
                let mut m = self.mode;
                self.mode = m.next();
            },
            ShortcutAction::OpenPreferences => {
                self.view = UISelection::Preferences;
            },
            _ => {},
        }
    }
}

/// Pressing F1 twice leaves the window as it was.
pub proof fn lemma_help_twice(w: WindowState)
    ensures
        w.spec_after(spec_shortcut_action(ShortcutKey::F1, false)).spec_after(
            spec_shortcut_action(ShortcutKey::F1, false),
        ) == w,
{
}

/// Cycling twice through the plotter modes comes back to the start.
pub proof fn lemma_plotter_mode_cycle(m: PlotterMode)
    ensures
        m.spec_next().spec_next() == m,
        m.spec_next() != m,
{
}

/// Cycling through the views never stays in the preferences and alternates
/// between the plot and the file settings.
pub proof fn lemma_ui_selection_cycle(s: UISelection)
    ensures
        s.spec_next() != UISelection::Preferences,
        s.spec_next().spec_next().spec_next() == s.spec_next(),
{
}

/// The shortcut table, key by key: F1 help, F3 next view, F4 next mode,
/// F5 quick load, F6 quick save, F10 quit, F12 preferences whatever else is
/// held; Ctrl with S, L or P opens the save, load or export dialog, and S,
/// L or P alone do nothing.
pub proof fn lemma_shortcut_table(ctrl: bool)
    ensures
        spec_shortcut_action(ShortcutKey::F1, ctrl) == ShortcutAction::ToggleHelp,
        spec_shortcut_action(ShortcutKey::F3, ctrl) == ShortcutAction::CycleView,
        spec_shortcut_action(ShortcutKey::F4, ctrl) == ShortcutAction::CycleMode,
        spec_shortcut_action(ShortcutKey::F5, ctrl) == ShortcutAction::QuickLoad,
        spec_shortcut_action(ShortcutKey::F6, ctrl) == ShortcutAction::QuickSave,
        spec_shortcut_action(ShortcutKey::F10, ctrl) == ShortcutAction::Quit,
        spec_shortcut_action(ShortcutKey::F12, ctrl) == ShortcutAction::OpenPreferences,
        spec_shortcut_action(ShortcutKey::S, true) == ShortcutAction::SaveDialog,
        spec_shortcut_action(ShortcutKey::L, true) == ShortcutAction::LoadDialog,
        spec_shortcut_action(ShortcutKey::P, true) == ShortcutAction::ExportDialog,
        spec_shortcut_action(ShortcutKey::S, false) == ShortcutAction::Nothing,
        spec_shortcut_action(ShortcutKey::L, false) == ShortcutAction::Nothing,
        spec_shortcut_action(ShortcutKey::P, false) == ShortcutAction::Nothing,
{
}

/// What the actions do to the window: help toggles the help and nothing
/// else, the view cycles to the next view, the mode to the next mode,
/// preferences opens the preferences; loading, saving, dialogs, quitting
/// and nothing leave the window as it is.
pub proof fn lemma_window_actions(w: WindowState)
    ensures
        w.spec_after(ShortcutAction::ToggleHelp).help_open == !w.help_open,
        w.spec_after(ShortcutAction::ToggleHelp).view == w.view,
        w.spec_after(ShortcutAction::ToggleHelp).mode == w.mode,
        w.spec_after(ShortcutAction::CycleView) == (WindowState { view: w.view.spec_next(), ..w }),
        w.spec_after(ShortcutAction::CycleMode) == (WindowState { mode: w.mode.spec_next(), ..w }),
        w.spec_after(ShortcutAction::OpenPreferences) == (WindowState { view: UISelection::Preferences, ..w }),
        w.spec_after(ShortcutAction::QuickLoad) == w,
        w.spec_after(ShortcutAction::QuickSave) == w,
        w.spec_after(ShortcutAction::Quit) == w,
        w.spec_after(ShortcutAction::SaveDialog) == w,
        w.spec_after(ShortcutAction::LoadDialog) == w,
        w.spec_after(ShortcutAction::ExportDialog) == w,
        w.spec_after(ShortcutAction::Nothing) == w,
{
}

/// The view cycle, view by view: plot to file settings, file settings to
/// plot, preferences to plot; the mode cycle swaps display and integration.
pub proof fn lemma_cycles()
    ensures
        UISelection::Plot.spec_next() == UISelection::FileSettings,
        UISelection::FileSettings.spec_next() == UISelection::Plot,
        UISelection::Preferences.spec_next() == UISelection::Plot,
        PlotterMode::Display.spec_next() == PlotterMode::Integrate,
        PlotterMode::Integrate.spec_next() == PlotterMode::Display,
{
}

} // verus!
