use flugs::backend::{BackendEventLoop, Storage};
use flugs::backend_state::BackendAppState;
use flugs::events::{
    drag_action, select_plot_file, settle_event, settle_events, AppEvent, DragAction, EventQueue, EventState, KeyModifiers, SubtractFile,
    TransformFileEvent,
};
use flugs::file_handler::{FileHandler, FileID};
use flugs::modes::{shortcut_action, PlotterMode, ShortcutAction, ShortcutKey, UISelection, WindowState};
use flugs::ui_parameter::{LinkReceiver, RecvOutcome, UIParameter};

#[test]
fn ui_parameter_updates() {
    let mut p = UIParameter::new(1);
    assert!(p.is_up_to_date());
    assert!(!p.try_update());
    let (tx, rx) = std::sync::mpsc::channel();
    p.set_recv(LinkReceiver::new(rx));
    assert!(!p.is_up_to_date());
    assert!(!p.try_update());
    assert_eq!(*p.value(), 1);
    tx.send(5).unwrap();
    assert!(p.try_update());
    assert_eq!(*p.value(), 5);
    assert!(p.is_up_to_date());
    let (tx2, rx2) = std::sync::mpsc::channel::<i32>();
    p.set_recv(LinkReceiver::new(rx2));
    drop(tx2);
    assert!(p.try_update());
    assert_eq!(*p.value(), 5);
    assert!(p.is_up_to_date());
    let (_tx3, rx3) = std::sync::mpsc::channel::<i32>();
    p.set_recv(LinkReceiver::new(rx3));
    let q = p.clone();
    assert!(q.is_up_to_date());
    assert_eq!(*q.value(), 5);
    assert!(p.apply_outcome(RecvOutcome::Received(8)));
    assert_eq!(*p.value(), 8);
    p.set_value(9);
    assert_eq!(*p.value(), 9);
    let d: UIParameter<i32> = Default::default();
    assert_eq!(*d.value(), 0);
}

#[test]
fn event_loop_stop() {
    let mut l = BackendEventLoop::new(BackendAppState::new("/".to_string()));
    assert!(!l.update());
    assert!(l.signal_stop());
    assert!(l.update());
    let s = Storage::new(1, "x");
    assert_eq!((s.backend_storage, s.frontend_storage), (1, "x"));
}

#[test]
fn modes_cycle() {
    let mut m = PlotterMode::Display;
    assert_eq!(m.next(), PlotterMode::Integrate);
    assert_eq!(m, PlotterMode::Display);
    assert_eq!(PlotterMode::Integrate.next(), PlotterMode::Display);
    assert_eq!(UISelection::Plot.next(), UISelection::FileSettings);
    assert_eq!(UISelection::FileSettings.next(), UISelection::Plot);
    assert_eq!(UISelection::Preferences.next(), UISelection::Plot);
}

struct Countdown(u32);

impl AppEvent for Countdown {
    type App = Vec<u32>;

    fn apply(&mut self, app: &mut Vec<u32>) -> Result<EventState, String> {
        app.push(self.0);
        if self.0 == 99 {
            return Err("bad".to_string());
        }
        if self.0 == 0 {
            Ok(EventState::Finished)
        } else {
            self.0 -= 1;
            Ok(EventState::Busy)
        }
    }
}

#[test]
fn event_queue_runs_latest_first() {
    let mut q = EventQueue::new();
    q.queue_event(Countdown(0));
    q.queue_event(Countdown(1));
    q.queue_event(Countdown(99));
    let mut log = Vec::new();
    assert!(q.run_events(&mut log));
    assert_eq!(log, vec![99, 1, 0]);
    assert!(q.run_events(&mut log));
    assert_eq!(log, vec![99, 1, 0, 0]);
    assert!(!q.run_events(&mut log));
    q.queue_event(Countdown(3));
    q.discard_events();
    assert!(!q.run_events(&mut log));
    let s = SubtractFile::new(FileID(1), FileID(2));
    assert_eq!((s.minuend, s.subtrahend), (FileID(1), FileID(2)));
}

#[test]
fn ui_parameter_value_mut_keeps_pending_update() {
    let mut p = UIParameter::new(vec![1, 2]);
    let (tx, rx) = std::sync::mpsc::channel();
    p.set_recv(LinkReceiver::new(rx));
    p.value_mut().push(3);
    assert_eq!(*p.value(), vec![1, 2, 3]);
    assert!(!p.is_up_to_date());
    tx.send(vec![9]).unwrap();
    assert!(p.try_update());
    assert_eq!(*p.value(), vec![9]);
}

#[test]
fn drag_actions_by_keys() {
    assert_eq!(drag_action([true, false, false]), DragAction::ShiftX);
    assert_eq!(drag_action([false, true, false]), DragAction::ShiftY);
    assert_eq!(drag_action([false, false, true]), DragAction::ScaleY);
    assert_eq!(drag_action([false, true, true]), DragAction::Annotate);
    assert_eq!(drag_action([true, true, false]), DragAction::Ignore);
    assert_eq!(drag_action([false, false, false]), DragAction::Ignore);
    assert_eq!(drag_action([true, true, true]), DragAction::Ignore);
}

#[test]
fn transform_event_prefers_alt_then_ctrl() {
    let keys = |alt, ctrl, shift| KeyModifiers { alt, ctrl, shift };
    let ev = |m| TransformFileEvent::new(FileID(2), m);
    assert_eq!(ev(keys(true, true, true)).action(), DragAction::ShiftX);
    assert_eq!(ev(keys(false, true, true)).action(), DragAction::ShiftY);
    assert_eq!(ev(keys(false, false, true)).action(), DragAction::ScaleY);
    assert_eq!(ev(keys(false, false, false)).action(), DragAction::Ignore);
}

#[test]
fn transform_event_needs_registered_file() {
    let mut fh = FileHandler::empty();
    let fid = fh.add_new_file("/d/a.csv".to_string());
    let keys = KeyModifiers { alt: true, ctrl: false, shift: false };
    assert_eq!(TransformFileEvent::new(fid, keys).check_target(&fh), Ok(()));
    assert_eq!(
        TransformFileEvent::new(FileID(17), keys).check_target(&fh),
        Err("Cannot transform file with ID FileID(17): not found in registry".to_string())
    );
    assert_eq!(
        TransformFileEvent::new(FileID(17), keys).no_cache_text(),
        "Unable to get cache for file with ID FileID(17)"
    );
}

#[test]
fn shortcuts_change_the_window() {
    assert_eq!(shortcut_action(ShortcutKey::F1, false), ShortcutAction::ToggleHelp);
    assert_eq!(shortcut_action(ShortcutKey::F10, true), ShortcutAction::Quit);
    assert_eq!(shortcut_action(ShortcutKey::S, true), ShortcutAction::SaveDialog);
    assert_eq!(shortcut_action(ShortcutKey::S, false), ShortcutAction::Nothing);
    assert_eq!(shortcut_action(ShortcutKey::P, true), ShortcutAction::ExportDialog);
    let mut w = WindowState::new();
    w.apply(ShortcutAction::ToggleHelp);
    assert!(w.help_open);
    w.apply(ShortcutAction::ToggleHelp);
    assert!(!w.help_open);
    w.apply(ShortcutAction::CycleView);
    assert_eq!(w.view, UISelection::FileSettings);
    w.apply(ShortcutAction::OpenPreferences);
    assert_eq!(w.view, UISelection::Preferences);
    w.apply(ShortcutAction::CycleView);
    assert_eq!(w.view, UISelection::Plot);
    w.apply(ShortcutAction::CycleMode);
    assert_eq!(w.mode, PlotterMode::Integrate);
    let before = w;
    w.apply(ShortcutAction::QuickSave);
    assert_eq!(w, before);
}

#[test]
fn plot_selection_follows_clicks() {
    let (a, b) = (Some(FileID(1)), Some(FileID(2)));
    assert_eq!(select_plot_file(a, b, true, false), b);
    assert_eq!(select_plot_file(a, b, false, false), a);
    assert_eq!(select_plot_file(a, None, true, false), None);
    assert_eq!(select_plot_file(a, None, true, true), a);
    assert_eq!(select_plot_file(a, None, false, false), a);
}

#[test]
fn settled_events_wait_only_when_busy() {
    let mut backlog: Vec<u32> = vec![1];
    assert!(!settle_event(&mut backlog, 2, &Ok(EventState::Busy)));
    assert_eq!(backlog, vec![1, 2]);
    assert!(settle_event(&mut backlog, 3, &Ok(EventState::Finished)));
    assert!(!settle_event(&mut backlog, 4, &Err("failed".to_string())));
    assert_eq!(backlog, vec![1, 2]);
}

#[test]
fn settled_events_keep_the_busy_ones_in_order() {
    let applied = vec![
        ('a', Ok(EventState::Busy)),
        ('b', Ok(EventState::Finished)),
        ('c', Err("no".to_string())),
        ('d', Ok(EventState::Busy)),
    ];
    assert_eq!(settle_events(applied), (vec!['a', 'd'], true));
    assert_eq!(settle_events(vec![('x', Ok(EventState::Busy))]), (vec!['x'], false));
    assert_eq!(settle_events::<char>(vec![]), (vec![], false));
}

#[test]
fn parameter_awaits_until_an_update_arrives() {
    let mut p = UIParameter::new(0);
    let (tx, rx) = std::sync::mpsc::channel();
    p.set_recv(LinkReceiver::new(rx));
    *p.value_mut() = 3;
    p.set_value(4);
    assert!(!p.is_up_to_date());
    assert!(!p.try_update());
    assert!(!p.is_up_to_date());
    tx.send(9).unwrap();
    assert!(p.try_update());
    assert!(p.is_up_to_date());
    assert_eq!(*p.value(), 9);
    assert!(p.clone().is_up_to_date());
}
