//! The recorder page's state machine: what space, enter, `r` and the arrow
//! keys do in each mode, the pre-roll countdown, and what "keep" sends to
//! the server. The browser performs the actions; these functions decide them.

use vstd::prelude::*;
use crate::record::{take_file_name, take_name_spec};
use crate::script::{owned, text_eq};
use crate::text::push_str;

verus! {

broadcast use vstd::string::group_string_axioms;

/// The recorder's modes; the page mirrors the mode onto `<body class>`.
#[derive(Clone, Copy, PartialEq, Eq, Debug, Structural)]
pub enum Mode {
    Idle,
    Countdown,
    Recording,
    Review,
    Uploading,
}

pub open spec fn mode_class(m: Mode) -> Seq<char> {
    match m {
        Mode::Idle => "idle"@,
        Mode::Countdown => "countdown"@,
        Mode::Recording => "recording"@,
        Mode::Review => "review"@,
        Mode::Uploading => "uploading"@,
    }
}

impl Mode {
    /// The CSS class that presents this mode.
    pub fn class(self) -> (s: &'static str)
        ensures
            s@ == mode_class(self),
    {
        match self {
            Mode::Idle => "idle",
            Mode::Countdown => "countdown",
            Mode::Recording => "recording",
            Mode::Review => "review",
            Mode::Uploading => "uploading",
        }
    }
}

/// Seconds shown before recording starts.
pub const COUNTDOWN_FROM: u32 = 3;

/// Countdown step, in milliseconds.
pub const COUNTDOWN_STEP_MS: i32 = 700;

/// Elapsed-time refresh while recording, in milliseconds.
pub const ELAPSED_STEP_MS: i32 = 50;

/// The part of the recorder page's shared state that a clip switch or a new
/// countdown touches (`R` is the coach's review of a take). The takes
/// rail's open row and playing take are archive state and survive a switch.
pub struct PageState<R> {
    pub mode: Mode,
    /// Index of the selected clip.
    pub current: usize,
    /// The coach's review of the just-recorded take (None while analysing).
    pub review: Option<R>,
    pub review_error: Option<String>,
    /// Archive number the review pass stored the pending take under.
    pub pending_take: Option<u32>,
    /// Expanded takes-rail row, keyed `<clip-id>/<file>`.
    pub expanded: Option<String>,
    /// Audition URL playing in the rail.
    pub playing: Option<String>,
    pub countdown: u32,
}

impl<R> PageState<R> {
    /// The page as it loads: idle on the first clip, nothing reviewed,
    /// open or playing.
    pub fn new() -> (s: Self)
        ensures
            s.mode == Mode::Idle,
            s.current == 0,
            s.review is None,
            s.review_error is None,
            s.pending_take is None,
            s.expanded is None,
            s.playing is None,
            s.countdown == COUNTDOWN_FROM,
    {
        PageState {
            mode: Mode::Idle,
            current: 0,
            review: None,
            review_error: None,
            pending_take: None,
            expanded: None,
            playing: None,
            countdown: COUNTDOWN_FROM,
        }
    }

    /// Switch to clip `i`: back to idle with the transient review state
    /// (review, its error, the pending take) cleared; the takes rail is kept.
    pub fn select(&mut self, i: usize)
        ensures
            final(self).current == i,
            final(self).mode == Mode::Idle,
            final(self).review is None,
            final(self).review_error is None,
            final(self).pending_take is None,
            final(self).expanded == old(self).expanded,
            final(self).playing == old(self).playing,
            final(self).countdown == old(self).countdown,
    {
        self.current = i;
        self.mode = Mode::Idle;
        self.review = None;
        self.review_error = None;
        self.pending_take = None;
    }

    /// Start the pre-roll: counting down from [`COUNTDOWN_FROM`], with the
    /// previous review, its pending take and any audition cleared; the
    /// selected clip and the open row are kept.
    pub fn begin_countdown(&mut self)
        ensures
            final(self).mode == Mode::Countdown,
            final(self).countdown == COUNTDOWN_FROM,
            final(self).review is None,
            final(self).review_error is None,
            final(self).pending_take is None,
            final(self).playing is None,
            final(self).current == old(self).current,
            final(self).expanded == old(self).expanded,
    {
        self.mode = Mode::Countdown;
        self.review = None;
        self.review_error = None;
        self.pending_take = None;
        self.playing = None;
        self.countdown = COUNTDOWN_FROM;
    }
}

/// What the record/stop control does.
#[derive(Clone, Copy, PartialEq, Eq, Debug, Structural)]
pub enum ToggleAction {
    StopRecording,
    BeginCountdown,
    Ignore,
}

/// Space / the record button: stop while recording, start a countdown from
/// idle or review, and do nothing mid-countdown or while uploading.
pub fn toggle_action(mode: Mode) -> (a: ToggleAction)
    ensures
        a == match mode {
            Mode::Recording => ToggleAction::StopRecording,
            Mode::Idle | Mode::Review => ToggleAction::BeginCountdown,
            _ => ToggleAction::Ignore,
        },
{
    match mode {
        Mode::Recording => ToggleAction::StopRecording,
        Mode::Idle | Mode::Review => ToggleAction::BeginCountdown,
        _ => ToggleAction::Ignore,
    }
}

/// One countdown tick.
#[derive(Clone, Copy, PartialEq, Eq, Debug, Structural)]
pub enum Tick {
    /// The countdown is over: start recording.
    StartRecording,
    /// Show this number next.
    Show(u32),
}

/// At 1 (or below) the countdown ends; otherwise it shows one less.
pub open spec fn tick_of(shown: u32) -> Tick {
    if shown <= 1 {
        Tick::StartRecording
    } else {
        Tick::Show((shown - 1) as u32)
    }
}

/// See [`tick_of`].
pub fn countdown_tick(shown: u32) -> (t: Tick)
    ensures
        t == tick_of(shown),
{
    if shown <= 1 {
        Tick::StartRecording
    } else {
        Tick::Show(shown - 1)
    }
}

/// How many ticks a countdown showing `shown` takes to start recording.
pub open spec fn ticks_to_record(shown: u32) -> nat
    decreases shown,
{
    match tick_of(shown) {
        Tick::StartRecording => 1,
        Tick::Show(m) => 1 + ticks_to_record(m),
    }
}

/// A countdown from `n` shows `n - 1`, …, `1` and starts recording on its
/// `n`-th tick (so the default countdown of 3 records on the third).
pub proof fn lemma_countdown_reaches_recording(n: u32)
    requires
        n >= 1,
    ensures
        ticks_to_record(n) == n,
    decreases n,
{
    if n > 1 {
        lemma_countdown_reaches_recording((n - 1) as u32);
    }
}

/// What "keep" sends to the server.
#[derive(PartialEq, Eq, Debug)]
pub enum KeepPlan {
    /// Not in review, or nothing recorded, or no clip: nothing happens.
    Ignore,
    /// The review pass archived the take already: approve that file.
    Approve { file: String },
    /// The review never reached the server: upload the take itself.
    Upload,
}

/// Enter / the keep button: only in review, with a recorded take and a
/// current clip; approve the archived take when the review stored it,
/// otherwise upload it.
pub fn keep_take_plan(mode: Mode, has_take: bool, has_clip: bool, pending: Option<u32>) -> (p: KeepPlan)
    ensures
        !(mode == Mode::Review && has_take && has_clip) ==> p == KeepPlan::Ignore,
        (mode == Mode::Review && has_take && has_clip) ==> match pending {
            Some(n) => p matches KeepPlan::Approve { file } && file@ == take_name_spec(n),
            None => p == KeepPlan::Upload,
        },
{
    if mode != Mode::Review || !has_take || !has_clip {
        return KeepPlan::Ignore;
    }
    match pending {
        Some(n) => KeepPlan::Approve { file: take_file_name(n) },
        None => KeepPlan::Upload,
    }
}

/// `r` / the retake button works only in review.
pub fn retake_allowed(mode: Mode) -> (b: bool)
    ensures
        b == (mode == Mode::Review),
{
    mode == Mode::Review
}

/// Clicking another clip switches only when idle or reviewing.
pub fn can_switch_clip(mode: Mode) -> (b: bool)
    ensures
        b == (mode == Mode::Idle || mode == Mode::Review),
{
    mode == Mode::Idle || mode == Mode::Review
}

/// What a key press does.
#[derive(Clone, Copy, PartialEq, Eq, Debug, Structural)]
pub enum KeyCommand {
    Toggle,
    Keep,
    Retake,
    Select(usize),
    Nothing,
}

/// The clip selected by the arrow keys: down/right moves to the next clip
/// (never past the last; a missing clip list counts as one clip), up/left
/// to the previous one (never before the first).
pub open spec fn arrow_target(down: bool, current: usize, clip_count: Option<usize>) -> usize {
    if down {
        let max: usize = match clip_count {
            Some(n) => n,
            None => 1,
        };
        let last: int = if max == 0 {
            0
        } else {
            max - 1
        };
        if current + 1 <= last {
            (current + 1) as usize
        } else {
            last as usize
        }
    } else if current == 0 {
        0
    } else {
        (current - 1) as usize
    }
}

/// Keyboard dispatch: `Space` (by key code) toggles recording, `Enter`
/// keeps, `r` retakes, arrows switch clips when idle.
pub open spec fn key_command_spec(
    code: Seq<char>,
    key: Seq<char>,
    idle: bool,
    current: usize,
    clip_count: Option<usize>,
) -> KeyCommand {
    if code == "Space"@ {
        KeyCommand::Toggle
    } else if key == "Enter"@ {
        KeyCommand::Keep
    } else if key == "r"@ {
        KeyCommand::Retake
    } else if (key == "ArrowDown"@ || key == "ArrowRight"@) && idle {
        KeyCommand::Select(arrow_target(true, current, clip_count))
    } else if (key == "ArrowUp"@ || key == "ArrowLeft"@) && idle {
        KeyCommand::Select(arrow_target(false, current, clip_count))
    } else {
        KeyCommand::Nothing
    }
}

/// See [`key_command_spec`].
pub fn key_command(code: &str, key: &str, idle: bool, current: usize, clip_count: Option<usize>) -> (c: KeyCommand)
    requires
        current < usize::MAX,
    ensures
        c == key_command_spec(code@, key@, idle, current, clip_count),
{
    if text_eq(code, "Space") {
        KeyCommand::Toggle
    } else if text_eq(key, "Enter") {
        KeyCommand::Keep
    } else if text_eq(key, "r") {
        KeyCommand::Retake
    } else if (text_eq(key, "ArrowDown") || text_eq(key, "ArrowRight")) && idle {
        let max = match clip_count {
            Some(n) => n,
            None => 1,
        };
        let last = if max == 0 {
            0
        } else {
            max - 1
        };
        let next = current + 1;
        KeyCommand::Select(if next <= last { next } else { last })
    } else if (text_eq(key, "ArrowUp") || text_eq(key, "ArrowLeft")) && idle {
        KeyCommand::Select(if current == 0 { 0 } else { current - 1 })
    } else {
        KeyCommand::Nothing
    }
}

/// The arrow keys never select outside the clip list.
pub proof fn lemma_arrows_stay_in_range(down: bool, current: usize, count: usize)
    requires
        count > 0,
        current < count,
    ensures
        arrow_target(down, current, Some(count)) < count,
{
}

/// An input device offered in the mic picker.
#[derive(Clone, Debug, PartialEq)]
pub struct MicDevice {
    pub id: String,
    pub label: String,
}

/// A device as listed: unlabelled devices show as "microphone".
pub fn mic_device(id: String, label: String) -> (d: MicDevice)
    ensures
        d.id == id,
        d.label@ == (if label@.len() == 0 {
            "microphone"@
        } else {
            label@
        }),
{
    let label = if label.as_str().is_empty() {
        owned("microphone")
    } else {
        label
    };
    MicDevice { id, label }
}

/// The slots with ids other than `id`, in order.
pub open spec fn without_id<T>(s: Seq<(i32, T)>, id: i32) -> Seq<(i32, T)>
    decreases s.len(),
{
    if s.len() == 0 {
        seq![]
    } else if s.last().0 == id {
        without_id(s.drop_last(), id)
    } else {
        without_id(s.drop_last(), id).push(s.last())
    }
}

/// Forget the timer slot(s) registered under `id`, keeping the rest in order.
pub fn clear_interval<T>(slots: &mut Vec<(i32, T)>, id: i32)
    ensures
        final(slots)@ == without_id(old(slots)@, id),
{
    let mut kept: Vec<(i32, T)> = Vec::new();
    let ghost orig = slots@;
    let mut taken: Vec<(i32, T)> = Vec::new();
    std::mem::swap(&mut taken, slots);
    let mut rev: Vec<(i32, T)> = Vec::new();
    while taken.len() > 0
        invariant
            orig == taken@ + rev@.reverse(),
        decreases taken@.len(),
    {
        let ghost before = taken@;
        let ghost rbefore = rev@;
        let last = taken.pop().unwrap();
        rev.push(last);
        assert(before =~= taken@.push(last));
        assert(rev@.reverse() =~= seq![last] + rbefore.reverse());
        assert(orig =~= taken@ + rev@.reverse());
    }
    assert(rev@.reverse() =~= orig);
    assert(rev@ =~= orig.reverse());
    let mut i = rev.len();
    let ghost r = rev@;
    assert(without_id(r.reverse().take(0), id) =~= Seq::<(i32, T)>::empty()) by {
        assert(r.reverse().take(0) =~= Seq::<(i32, T)>::empty());
    }
    while rev.len() > 0
        invariant
            r == orig.reverse(),
            rev@ == r.take(rev@.len() as int),
            kept@ == without_id(orig.take(orig.len() - rev@.len()), id),
            rev@.len() <= orig.len(),
        decreases rev@.len(),
    {
        let ghost k = orig.len() - rev@.len();
        let slot = rev.pop().unwrap();
        assert(slot == orig[k]);
        assert(orig.take(k + 1).drop_last() =~= orig.take(k));
        if slot.0 != id {
            kept.push(slot);
        }
        assert(rev@ =~= r.take(rev@.len() as int));
    }
    assert(orig.take(orig.len() as int) =~= orig);
    *slots = kept;
}

/// What is open after a click on `key` when `current` is open: a click on
/// the open item closes it, a click on any other opens that one alone.
pub open spec fn toggled(current: Option<Seq<char>>, key: Seq<char>) -> Option<Seq<char>> {
    if current == Some(key) {
        None
    } else {
        Some(key)
    }
}

/// The take list's disclosure and playback toggle: the expanded row (or the
/// playing take) after a click on `key`.
pub fn toggle_open(current: Option<&str>, key: &str) -> (next: Option<String>)
    ensures
        match next {
            Some(n) => toggled(
                match current {
                    Some(c) => Some(c@),
                    None => None,
                },
                key@,
            ) == Some(n@),
            None => toggled(
                match current {
                    Some(c) => Some(c@),
                    None => None,
                },
                key@,
            ) is None,
        },
{
    match current {
        Some(c) => {
            if text_eq(c, key) {
                None
            } else {
                Some(owned(key))
            }
        },
        None => Some(owned(key)),
    }
}

/// One item open at a time: after a click on `key`, either nothing or `key`
/// is open, and a second click on it closes it again.
pub proof fn lemma_one_open_at_a_time(current: Option<Seq<char>>, key: Seq<char>)
    ensures
        toggled(current, key) is None || toggled(current, key) == Some(key),
        toggled(toggled(current, key), key) is None <==> toggled(current, key) == Some(key),
        current != Some(key) ==> toggled(toggled(current, key), key) is None,
{
}

/// `/api/takes/<id>`: the archived takes of a clip.
pub fn takes_url(id: &str) -> (u: String)
    ensures
        u@ == "/api/takes/"@ + id@,
{
    let mut u = owned("/api/takes/");
    push_str(&mut u, id);
    u
}

/// `/api/review/<id>`: archive and analyse a fresh take.
pub fn review_url(id: &str) -> (u: String)
    ensures
        u@ == "/api/review/"@ + id@,
{
    let mut u = owned("/api/review/");
    push_str(&mut u, id);
    u
}

/// `/api/approve/<id>/<file>`: promote an archived take to the clip's audio.
pub fn approve_url(id: &str, file: &str) -> (u: String)
    ensures
        u@ == "/api/approve/"@ + id@ + "/"@ + file@,
{
    let mut u = owned("/api/approve/");
    push_str(&mut u, id);
    push_str(&mut u, "/");
    push_str(&mut u, file);
    u
}

} // verus!
