//! When the board is drawn, and when it ends.
//!
//! The board is redrawn only when an input or a reply of `bd` changed
//! something. The time from an input to the frame that shows its result is
//! traced; `T` is a point in time.

use crate::trace;
use vstd::prelude::*;

verus! {

/// Where the event loop is.
#[derive(Clone, Copy, Debug, PartialEq, Eq, Structural)]
pub enum Stage {
    /// Apply the replies that came, and draw what they changed.
    Replies,
    /// Wait for an input, and handle it.
    Wait,
    /// Show the closing message and draw the last frame.
    Farewell,
    /// Wait until the queued writes have reached `bd`.
    Drain,
    /// End.
    Finish,
}

/// What the event loop remembers.
pub struct Screen<T> {
    /// Where the loop is.
    pub stage: Stage,
    /// Something changed since the last frame.
    pub dirty: bool,
    /// What the next frame shows the result of, and since when that waits.
    pub pending: Option<(T, String)>,
}

/// The model of a [`Screen`].
#[verifier::ext_equal]
pub struct ScreenModel<T> {
    pub stage: Stage,
    pub dirty: bool,
    pub pending: Option<(T, Seq<char>)>,
}

/// The model of a traced span.
pub open spec fn span_of<T>(span: Option<(T, String)>) -> Option<(T, Seq<char>)> {
    match span {
        Some((since, what)) => Some((since, what@)),
        None => None,
    }
}

impl<T> View for Screen<T> {
    type V = ScreenModel<T>;

    open spec fn view(&self) -> ScreenModel<T> {
        ScreenModel { stage: self.stage, dirty: self.dirty, pending: span_of(self.pending) }
    }
}

/// What to do about the screen.
pub enum Frame<T> {
    /// The last frame still holds.
    Keep,
    /// Draw a frame, then trace the span that it ends, if it ends one.
    Draw(Option<(T, String)>),
}

/// An input.
pub enum Input<T> {
    /// A key was pressed, or did something else.
    Key { pressed: bool, at: T, code: String },
    Mouse,
    Other,
}

/// What to do about an input.
#[derive(Clone, Copy, Debug, PartialEq, Eq, Structural)]
pub enum Handling {
    /// Handle the key.
    Key,
    /// Handle the mouse.
    Mouse,
    Nothing,
}

/// The screen when the board starts.
pub open spec fn started<T>(at: T) -> ScreenModel<T> {
    ScreenModel {
        stage: Stage::Replies,
        dirty: true,
        pending: Some((at, "startup (first frame)"@)),
    }
}

/// Whether a turn draws a frame, given whether replies changed something.
pub open spec fn draws<T>(s: ScreenModel<T>, replies: bool) -> bool {
    s.dirty || replies
}

/// The screen after a turn.
pub open spec fn after_turn<T>(s: ScreenModel<T>, replies: bool) -> ScreenModel<T> {
    if draws(s, replies) {
        ScreenModel { dirty: false, pending: None, ..s }
    } else {
        s
    }
}

/// What an input calls for.
pub open spec fn handling_of<T>(input: Input<T>) -> Handling {
    match input {
        Input::Key { pressed, .. } => if pressed {
            Handling::Key
        } else {
            Handling::Nothing
        },
        Input::Mouse => Handling::Mouse,
        Input::Other => Handling::Nothing,
    }
}

/// The screen after an input.
pub open spec fn after_input<T>(s: ScreenModel<T>, input: Input<T>) -> ScreenModel<T> {
    ScreenModel {
        dirty: true,
        pending: match input {
            Input::Key { pressed, at, code } => if pressed {
                Some((at, "key "@ + code@))
            } else {
                s.pending
            },
            _ => s.pending,
        },
        ..s
    }
}

/// Whether an error is still shown after an input: a pressed key means that it
/// has been seen.
pub open spec fn shown_after<T>(input: Input<T>, error_shown: bool) -> bool {
    handling_of(input) != Handling::Key && error_shown
}

impl<T> Screen<T> {
    /// The screen when the board starts.
    pub fn start(at: T) -> (r: Screen<T>)
        ensures
            r@ == started(at),
            r.stage == Stage::Replies,
            r.dirty,
            r.pending matches Some((since, what)) && since == at && what@
                == "startup (first frame)"@,
    {
        Screen {
            stage: Stage::Replies,
            dirty: true,
            pending: Some((at, "startup (first frame)".to_owned())),
        }
    }

    /// Decides whether to draw, given whether replies changed something.
    pub fn turn(&mut self, replies: bool) -> (r: Frame<T>)
        ensures
            final(self)@ == after_turn(old(self)@, replies),
            match r {
                Frame::Keep => !draws(old(self)@, replies),
                Frame::Draw(span) => draws(old(self)@, replies) && span == old(self).pending,
            },
            r is Draw <==> old(self).dirty || replies,
            r is Draw ==> !final(self).dirty && final(self).pending is None && final(self).stage
                == old(self).stage,
            r is Keep ==> *final(self) == *old(self),
    {
        if self.dirty || replies {
            self.dirty = false;
            Frame::Draw(self.pending.take())
        } else {
            Frame::Keep
        }
    }

    /// Takes note of an input. A pressed key takes back that an error is shown,
    /// before it is handled.
    pub fn input(&mut self, input: Input<T>, error_shown: &mut bool) -> (r: Handling)
        ensures
            final(self)@ == after_input(old(self)@, input),
            *final(error_shown) == shown_after(input, *old(error_shown)),
            r == handling_of(input),
            final(self).dirty,
            final(self).stage == old(self).stage,
            match input {
                Input::Key { pressed, at, code } => if pressed {
                    &&& r == Handling::Key
                    &&& !*final(error_shown)
                    &&& final(self).pending matches Some((since, what)) && since == at && what@
                        == "key "@ + code@
                } else {
                    &&& r == Handling::Nothing
                    &&& *final(error_shown) == *old(error_shown)
                    &&& final(self).pending == old(self).pending
                },
                _ => {
                    &&& r == if input is Mouse {
                        Handling::Mouse
                    } else {
                        Handling::Nothing
                    }
                    &&& *final(error_shown) == *old(error_shown)
                    &&& final(self).pending == old(self).pending
                },
            },
    {
        self.dirty = true;
        match input {
            Input::Key { pressed, at, code } => if pressed {
                *error_shown = false;
                self.pending = Some((at, trace::key_label(code.as_str())));
                Handling::Key
            } else {
                Handling::Nothing
            },
            Input::Mouse => Handling::Mouse,
            Input::Other => Handling::Nothing,
        }
    }

    /// Goes on to the next stage, given whether an input came while waiting and
    /// whether the board was asked to quit.
    pub fn advance(&mut self, came: bool, quit: bool)
        ensures
            final(self)@ == (ScreenModel {
                stage: stage_after(old(self).stage, came, quit),
                ..old(self)@
            }),
    {
        self.stage = next_stage(self.stage, came, quit);
    }
}

/// Law: every input is followed by a frame, and a pressed key is what that
/// frame traces.
pub proof fn law_input_is_drawn<T>(s: ScreenModel<T>, input: Input<T>, replies: bool)
    ensures
        draws(after_input(s, input), replies),
        input matches Input::Key { pressed, at, code } ==> (pressed ==> after_input(s, input).pending
            == Some((at, "key "@ + code@))),
{
}

/// Law: a span is traced once: after the frame that ends it nothing is
/// pending.
pub proof fn law_span_is_traced_once<T>(s: ScreenModel<T>, replies: bool)
    requires
        draws(s, replies),
    ensures
        after_turn(s, replies).pending is None,
{
}

/// The stage that follows, given whether an input came while waiting and
/// whether the board was asked to quit.
pub open spec fn stage_after(stage: Stage, came: bool, quit: bool) -> Stage {
    match stage {
        Stage::Replies => if quit {
            Stage::Farewell
        } else {
            Stage::Wait
        },
        Stage::Wait => if came && quit {
            Stage::Farewell
        } else {
            Stage::Replies
        },
        Stage::Farewell => Stage::Drain,
        Stage::Drain => Stage::Finish,
        Stage::Finish => Stage::Finish,
    }
}

/// The stage that follows.
pub fn next_stage(stage: Stage, came: bool, quit: bool) -> (r: Stage)
    ensures
        r == stage_after(stage, came, quit),
{
    match stage {
        Stage::Replies => if quit {
            Stage::Farewell
        } else {
            Stage::Wait
        },
        Stage::Wait => if came && quit {
            Stage::Farewell
        } else {
            Stage::Replies
        },
        Stage::Farewell => Stage::Drain,
        Stage::Drain => Stage::Finish,
        Stage::Finish => Stage::Finish,
    }
}

/// The message of the last frame.
pub open spec fn closing_text() -> Seq<char> {
    "finishing bd writes…"@
}

/// The message of the last frame, to be shown while the queued writes finish.
pub fn closing_message() -> (r: &'static str)
    ensures
        r@ == closing_text(),
        r@ == "finishing bd writes…"@,
{
    "finishing bd writes…"
}

/// What one round of the event loop meets: whether replies changed something,
/// which input came, and whether the board was then asked to quit.
pub struct Round<T> {
    pub replies: bool,
    pub input: Option<Input<T>>,
    pub quit: bool,
}

/// Whether the loop takes an input in a round.
pub open spec fn takes_input<T>(s: ScreenModel<T>, round: Round<T>) -> bool {
    s.stage == Stage::Wait && round.input is Some
}

/// Whether the loop is over: what is left is to close the board.
pub open spec fn closing(stage: Stage) -> bool {
    stage == Stage::Farewell || stage == Stage::Drain || stage == Stage::Finish
}

/// Whether the loop draws a frame in a round.
pub open spec fn draws_in<T>(s: ScreenModel<T>, round: Round<T>) -> bool {
    s.stage == Stage::Replies && draws(s, round.replies)
}

/// Whether a round brings something new to show: replies that changed
/// something, or an input.
pub open spec fn brings_news<T>(s: ScreenModel<T>, round: Round<T>) -> bool {
    match s.stage {
        Stage::Replies => round.replies,
        Stage::Wait => round.input is Some,
        Stage::Farewell | Stage::Drain | Stage::Finish => false,
    }
}

/// The screen after a round.
pub open spec fn after_round<T>(s: ScreenModel<T>, round: Round<T>) -> ScreenModel<T> {
    let t = match s.stage {
        Stage::Replies => after_turn(s, round.replies),
        Stage::Wait => match round.input {
            Some(input) => after_input(s, input),
            None => s,
        },
        Stage::Farewell | Stage::Drain | Stage::Finish => s,
    };
    ScreenModel { stage: stage_after(s.stage, round.input is Some, round.quit), ..t }
}

/// The screen after the first `n` rounds of a run that started at `at`.
pub open spec fn screen_at<T>(at: T, rounds: Seq<Round<T>>, n: nat) -> ScreenModel<T>
    decreases n,
{
    if n == 0 {
        started(at)
    } else {
        after_round(screen_at(at, rounds, (n - 1) as nat), rounds[n - 1])
    }
}

/// Law: the first round draws, so the first frame is there before the loop
/// waits for the first input, and it traces the start.
pub proof fn law_first_frame_comes_first<T>(at: T, rounds: Seq<Round<T>>, n: nat)
    requires
        n < rounds.len(),
        screen_at(at, rounds, n).stage == Stage::Wait,
    ensures
        n > 0,
        draws_in(screen_at(at, rounds, 0), rounds[0]),
        screen_at(at, rounds, 0).pending == Some((at, "startup (first frame)"@)),
{
}

/// Law: between two frames of a run something new came: replies that changed
/// something, or an input.
pub proof fn law_no_frame_without_news<T>(at: T, rounds: Seq<Round<T>>, i: nat, j: nat)
    requires
        i < j < rounds.len(),
        draws_in(screen_at(at, rounds, i), rounds[i as int]),
        draws_in(screen_at(at, rounds, j), rounds[j as int]),
    ensures
        exists|k: nat|
            i < k <= j && #[trigger] brings_news(screen_at(at, rounds, k), rounds[k as int]),
{
    if forall|k: nat|
        i < k <= j ==> !#[trigger] brings_news(screen_at(at, rounds, k), rounds[k as int]) {
        lemma_clean_without_news(at, rounds, i, j);
        assert(!brings_news(screen_at(at, rounds, j), rounds[j as int]));
    }
}

/// Law: however long nothing happens, nothing is drawn: after a frame, no
/// round draws until one brings something new.
pub proof fn law_idle_rounds_draw_nothing<T>(at: T, rounds: Seq<Round<T>>, i: nat, j: nat)
    requires
        i < j < rounds.len(),
        draws_in(screen_at(at, rounds, i), rounds[i as int]),
        forall|k: nat|
            i < k <= j ==> !#[trigger] brings_news(screen_at(at, rounds, k), rounds[k as int]),
    ensures
        !draws_in(screen_at(at, rounds, j), rounds[j as int]),
{
    if draws_in(screen_at(at, rounds, j), rounds[j as int]) {
        law_no_frame_without_news(at, rounds, i, j);
    }
}

proof fn lemma_clean_without_news<T>(at: T, rounds: Seq<Round<T>>, i: nat, n: nat)
    requires
        i < n < rounds.len(),
        draws_in(screen_at(at, rounds, i), rounds[i as int]),
        forall|k: nat|
            i < k < n ==> !#[trigger] brings_news(screen_at(at, rounds, k), rounds[k as int]),
    ensures
        !screen_at(at, rounds, n).dirty,
    decreases n,
{
    let m = (n - 1) as nat;
    if i < m {
        lemma_clean_without_news(at, rounds, i, m);
        assert(!brings_news(screen_at(at, rounds, m), rounds[m as int]));
    }
}

/// Law: no key but a pressed one is handled as a key, and an error that was
/// shown has been taken back by then.
pub proof fn law_only_pressed_keys_are_handled<T>(input: Input<T>, error_shown: bool)
    ensures
        handling_of(input) == Handling::Key <==> input is Key && input->pressed,
        handling_of(input) == Handling::Key ==> !shown_after(input, error_shown),
        handling_of(input) != Handling::Key ==> shown_after(input, error_shown) == error_shown,
{
}

/// Law: once the board closes it does not come back: no later round takes an
/// input, applies replies or draws for them.
pub proof fn law_closing_is_for_good<T>(at: T, rounds: Seq<Round<T>>, i: nat, j: nat)
    requires
        i <= j < rounds.len(),
        closing(screen_at(at, rounds, i).stage),
    ensures
        closing(screen_at(at, rounds, j).stage),
        !takes_input(screen_at(at, rounds, j), rounds[j as int]),
        !draws_in(screen_at(at, rounds, j), rounds[j as int]),
        screen_at(at, rounds, i).stage == Stage::Finish ==> screen_at(at, rounds, j).stage
            == Stage::Finish,
    decreases j,
{
    if i < j {
        law_closing_is_for_good(at, rounds, i, (j - 1) as nat);
    }
}

/// Whether the first `n` rounds of a run close the board from the round `k` on:
/// that one draws the last frame, the next one waits for the queued writes, and
/// then the board has ended. No round before belongs to the closing.
pub open spec fn closes_from<T>(at: T, rounds: Seq<Round<T>>, k: nat, n: nat) -> bool {
    &&& k + 2 <= n
    &&& screen_at(at, rounds, k).stage == Stage::Farewell
    &&& screen_at(at, rounds, k + 1).stage == Stage::Drain
    &&& forall|m: nat|
        k + 2 <= m <= n ==> (#[trigger] screen_at(at, rounds, m)).stage == Stage::Finish
    &&& forall|m: nat| m < k ==> !closing((#[trigger] screen_at(at, rounds, m)).stage)
}

/// Law: the board ends in order: the last frame is drawn, then the queued
/// writes finish, then it ends. The end is never reached any other way.
pub proof fn law_last_frame_then_writes_then_end<T>(at: T, rounds: Seq<Round<T>>, n: nat)
    requires
        n <= rounds.len(),
        screen_at(at, rounds, n).stage == Stage::Finish,
    ensures
        exists|k: nat| #[trigger] closes_from(at, rounds, k, n),
    decreases n,
{
    let last = (n - 1) as nat;
    if screen_at(at, rounds, last).stage == Stage::Finish {
        law_last_frame_then_writes_then_end(at, rounds, last);
        let k = choose|k: nat| #[trigger] closes_from(at, rounds, k, last);
        assert forall|m: nat| k + 2 <= m <= n implies (#[trigger] screen_at(
            at,
            rounds,
            m,
        )).stage == Stage::Finish by {
            if m < n {
                assert(m <= last);
            }
        }
        assert(closes_from(at, rounds, k, n));
    } else {
        assert(screen_at(at, rounds, last).stage == Stage::Drain);
        let k = (n - 2) as nat;
        assert(screen_at(at, rounds, k).stage == Stage::Farewell);
        assert forall|m: nat| m < k implies !closing(
            (#[trigger] screen_at(at, rounds, m)).stage,
        ) by {
            if closing(screen_at(at, rounds, m).stage) {
                lemma_closing_moves_on(at, rounds, m, k);
            }
        }
        assert(closes_from(at, rounds, k, n));
    }
}

proof fn lemma_closing_moves_on<T>(at: T, rounds: Seq<Round<T>>, m: nat, k: nat)
    requires
        m < k,
        closing(screen_at(at, rounds, m).stage),
    ensures
        closing(screen_at(at, rounds, k).stage),
        screen_at(at, rounds, k).stage != Stage::Farewell,
    decreases k,
{
    if m < k - 1 {
        lemma_closing_moves_on(at, rounds, m, (k - 1) as nat);
    }
}

/// Law: the board closes only when asked to: the round before the last frame
/// asked for it.
pub proof fn law_closes_only_when_asked<T>(at: T, rounds: Seq<Round<T>>, n: nat)
    requires
        n < rounds.len(),
        !closing(screen_at(at, rounds, n).stage),
        closing(screen_at(at, rounds, n + 1).stage),
    ensures
        rounds[n as int].quit,
        screen_at(at, rounds, n + 1).stage == Stage::Farewell,
{
}

/// Law: the board ends when asked to: within four rounds, the last frame and
/// the wait for the queued writes among them.
pub proof fn law_ends_when_asked<T>(at: T, rounds: Seq<Round<T>>, n: nat)
    requires
        n + 4 <= rounds.len(),
        forall|k: int| n <= k < n + 4 ==> (#[trigger] rounds[k]).quit,
    ensures
        screen_at(at, rounds, n + 4).stage == Stage::Finish,
{
    let i = n as int;
    assert(rounds[i].quit && rounds[i + 1].quit && rounds[i + 2].quit && rounds[i + 3].quit);
    reveal_with_fuel(screen_at, 5);
}

/// Law: the model of a screen says field by field what the screen says.
pub proof fn law_screen_model<T>(s: Screen<T>)
    ensures
        s@.stage == s.stage && s@.dirty == s.dirty,
        match s.pending {
            Some((since, what)) => s@.pending == Some((since, what@)),
            None => s@.pending is None,
        },
{
}

/// Law: a turn draws exactly where something changed since the last frame or
/// replies changed something now. It leaves the screen clean with nothing
/// pending, or, where it does not draw, as it was.
pub proof fn law_turn<T>(s: ScreenModel<T>, replies: bool)
    ensures
        draws(s, replies) <==> s.dirty || replies,
        after_turn(s, replies).stage == s.stage,
        s.dirty || replies ==> !after_turn(s, replies).dirty && after_turn(s, replies).pending is None,
        !s.dirty && !replies ==> after_turn(s, replies) == s,
{
}

/// Law: after any input the next turn draws; the input keeps what is pending
/// unless it is a pressed key, which then is pending from the time it came; and
/// the mouse is handled exactly where it was the mouse.
pub proof fn law_input<T>(s: ScreenModel<T>, input: Input<T>)
    ensures
        after_input(s, input).dirty,
        after_input(s, input).stage == s.stage,
        input is Key && input->pressed ==> after_input(s, input).pending == Some(
            (input->at, "key "@ + input->code@),
        ),
        !(input is Key && input->pressed) ==> after_input(s, input).pending == s.pending,
        handling_of(input) == Handling::Mouse <==> input is Mouse,
{
}

/// Law: while the board is not asked to quit, it applies replies and waits for
/// input by turns, whether an input comes or not. Once asked, it says farewell,
/// from a wait only after an input; then it waits for the queued writes, then
/// it ends, whatever comes, and stays so.
pub proof fn law_stages(came: bool, quit: bool)
    ensures
        stage_after(Stage::Replies, came, false) == Stage::Wait,
        stage_after(Stage::Wait, came, false) == Stage::Replies,
        stage_after(Stage::Wait, false, quit) == Stage::Replies,
        stage_after(Stage::Replies, came, true) == Stage::Farewell,
        stage_after(Stage::Wait, true, true) == Stage::Farewell,
        stage_after(Stage::Farewell, came, quit) == Stage::Drain,
        stage_after(Stage::Drain, came, quit) == Stage::Finish,
        stage_after(Stage::Finish, came, quit) == Stage::Finish,
{
}

/// Law: the board starts with a frame to draw, which traces the start, and with
/// the replies.
pub proof fn law_start<T>(at: T)
    ensures
        started(at).stage == Stage::Replies,
        started(at).dirty,
        started(at).pending == Some((at, "startup (first frame)"@)),
{
}

/// Law: a round applies replies, takes an input or closes the board, by its
/// stage. Outside the stage for replies nothing is drawn, and outside the wait
/// no input is taken; what a round does not touch stays as it is.
pub proof fn law_rounds<T>(s: ScreenModel<T>, round: Round<T>)
    ensures
        draws_in(s, round) <==> s.stage == Stage::Replies && (s.dirty || round.replies),
        takes_input(s, round) <==> s.stage == Stage::Wait && round.input is Some,
        brings_news(s, round) <==> (s.stage == Stage::Replies && round.replies) || (s.stage
            == Stage::Wait && round.input is Some),
        draws_in(s, round) ==> !after_round(s, round).dirty && after_round(s, round).pending is None,
        takes_input(s, round) ==> after_round(s, round).dirty,
        !draws_in(s, round) && !takes_input(s, round) ==> after_round(s, round).dirty == s.dirty
            && after_round(s, round).pending == s.pending,
        takes_input(s, round) && round.input is Some && !(round.input->0 is Key
            && round.input->0->pressed) ==> after_round(s, round).pending == s.pending,
{
}

/// Law: news is drawn without delay: replies in the same round, and an input in
/// the next round that applies replies, unless the board closes before.
pub proof fn law_news_is_drawn<T>(at: T, rounds: Seq<Round<T>>, n: nat)
    requires
        n + 1 < rounds.len(),
        brings_news(screen_at(at, rounds, n), rounds[n as int]),
    ensures
        screen_at(at, rounds, n).stage == Stage::Replies ==> draws_in(
            screen_at(at, rounds, n),
            rounds[n as int],
        ),
        screen_at(at, rounds, n).stage == Stage::Wait && !rounds[n as int].quit ==> draws_in(
            screen_at(at, rounds, n + 1),
            rounds[n as int + 1],
        ),
{
}

/// Law: the message of the last frame says what the board still waits for.
pub proof fn law_closing_text()
    ensures
        closing_text() == "finishing bd writes…"@,
{
}

} // verus!
