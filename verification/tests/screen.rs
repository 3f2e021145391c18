use herdr_beads::model::{pane_title, parse_args, Mode, Scope};
use herdr_beads::screen::{closing_message, next_stage, Frame, Handling, Input, Screen, Stage};
use herdr_beads::trace::{key_label, run_label, trace_line};

fn args(list: &[&str]) -> Vec<String> {
    list.iter().map(|s| s.to_string()).collect()
}

fn span<T>(frame: Frame<T>) -> Option<Option<(T, String)>> {
    match frame {
        Frame::Keep => None,
        Frame::Draw(span) => Some(span),
    }
}

#[test]
fn arguments_choose_mode_scope_and_selftest() {
    let default = (Mode::Popup, Scope::Repo, false);
    assert_eq!(parse_args(&[]), default);
    assert_eq!(parse_args(&args(&["--dock"])).0, Mode::Dock);
    assert_eq!(parse_args(&args(&["--dock", "--board"])).0, Mode::Popup);
    assert_eq!(parse_args(&args(&["--mode", "dock"])).0, Mode::Dock);
    assert_eq!(parse_args(&args(&["--dock", "--mode", "other"])).0, Mode::Popup);
    assert_eq!(parse_args(&args(&["--dock", "--mode"])).0, Mode::Dock);
    assert_eq!(
        parse_args(&args(&["--mode", "--global", "--selftest"])),
        (Mode::Popup, Scope::Repo, true)
    );
    assert_eq!(
        parse_args(&args(&["--global", "--selftest", "--popup"])),
        (Mode::Popup, Scope::Global, true)
    );
    assert_eq!(parse_args(&args(&["dock", "--DOCK", ""])), default);
}

#[test]
fn the_pane_is_titled_by_mode() {
    assert_eq!(pane_title(Mode::Dock), "herdr-beads-dock");
    assert_eq!(pane_title(Mode::Popup), "herdr-beads-board");
}

#[test]
fn frames_are_drawn_only_for_changes() {
    let mut screen = Screen::start(1);
    let mut error = true;
    assert_eq!(span(screen.turn(false)), Some(Some((1, "startup (first frame)".to_string()))));
    for _ in 0..3 {
        assert_eq!(span(screen.turn(false)), None);
    }
    assert_eq!(span(screen.turn(true)), Some(None));
    let release = Input::Key { pressed: false, at: 4, code: "Esc".to_string() };
    assert_eq!(screen.input(release, &mut error), Handling::Nothing);
    assert_eq!(screen.input(Input::Mouse, &mut error), Handling::Mouse);
    assert!(error);
    let key = Input::Key { pressed: true, at: 5, code: "Char('q')".to_string() };
    assert_eq!(screen.input(key, &mut error), Handling::Key);
    assert!(!error);
    assert_eq!(span(screen.turn(false)), Some(Some((5, "key Char('q')".to_string()))));
    assert_eq!(screen.input(Input::Other, &mut error), Handling::Nothing);
    assert_eq!(span(screen.turn(false)), Some(None));
    assert_eq!(span(screen.turn(false)), None);
}

#[test]
fn the_first_frame_comes_before_the_first_wait() {
    let mut screen = Screen::start(0);
    assert_eq!(screen.stage, Stage::Replies);
    assert!(span(screen.turn(false)).is_some());
    screen.advance(false, false);
    assert_eq!(screen.stage, Stage::Wait);
}

#[test]
fn the_last_frame_comes_before_the_wait_for_writes() {
    let mut screen = Screen::start(0);
    let mut seen = Vec::new();
    for _ in 0..6 {
        seen.push(screen.stage);
        screen.advance(false, seen.len() > 1);
    }
    assert_eq!(
        seen,
        [Stage::Replies, Stage::Wait, Stage::Replies, Stage::Farewell, Stage::Drain, Stage::Finish]
    );
    screen.advance(true, false);
    assert_eq!(screen.stage, Stage::Finish);
    assert_eq!(closing_message(), "finishing bd writes…");
}

#[test]
fn the_loop_ends_when_asked() {
    assert_eq!(next_stage(Stage::Replies, false, false), Stage::Wait);
    assert_eq!(next_stage(Stage::Replies, false, true), Stage::Farewell);
    assert_eq!(next_stage(Stage::Wait, false, true), Stage::Replies);
    assert_eq!(next_stage(Stage::Wait, true, false), Stage::Replies);
    assert_eq!(next_stage(Stage::Wait, true, true), Stage::Farewell);
    assert_eq!(next_stage(Stage::Farewell, false, false), Stage::Drain);
    assert_eq!(next_stage(Stage::Drain, false, false), Stage::Finish);
    assert_eq!(next_stage(Stage::Finish, true, false), Stage::Finish);
}

#[test]
fn log_lines_are_aligned() {
    assert_eq!(
        trace_line(1700000000, 7, 42, "12.5", "key Esc"),
        "1700000000.007 pid=42     12.5ms key Esc\n"
    );
    assert_eq!(
        trace_line(0, 999, 1, "123456789.0", ""),
        format!("{}.{:03} pid={} {:>8.1}ms {}\n", 0, 999, 1, 123456789.0f64, "")
    );
    assert_eq!(run_label(&args(&["list", "--json"])), "  bd list");
    assert_eq!(run_label(&[]), "  bd ");
    assert_eq!(key_label("Enter"), "key Enter");
}
