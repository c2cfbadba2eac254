use videoeditor::recorder::{
    approve_url, can_switch_clip, clear_interval, countdown_tick, keep_take_plan, key_command,
    mic_device, retake_allowed, review_url, takes_url, toggle_action, toggle_open, KeepPlan, KeyCommand,
    MicDevice, Mode, PageState, Tick, ToggleAction, COUNTDOWN_FROM,
};

#[test]
fn modes_map_to_body_classes() {
    assert_eq!(Mode::Idle.class(), "idle");
    assert_eq!(Mode::Countdown.class(), "countdown");
    assert_eq!(Mode::Recording.class(), "recording");
    assert_eq!(Mode::Review.class(), "review");
    assert_eq!(Mode::Uploading.class(), "uploading");
}

#[test]
fn the_record_control_depends_on_the_mode() {
    assert_eq!(toggle_action(Mode::Recording), ToggleAction::StopRecording);
    assert_eq!(toggle_action(Mode::Idle), ToggleAction::BeginCountdown);
    assert_eq!(toggle_action(Mode::Review), ToggleAction::BeginCountdown);
    assert_eq!(toggle_action(Mode::Countdown), ToggleAction::Ignore);
    assert_eq!(toggle_action(Mode::Uploading), ToggleAction::Ignore);
}

#[test]
fn the_countdown_starts_recording_on_its_third_tick() {
    let mut shown = COUNTDOWN_FROM;
    let mut ticks = 0;
    loop {
        ticks += 1;
        match countdown_tick(shown) {
            Tick::Show(n) => shown = n,
            Tick::StartRecording => break,
        }
    }
    assert_eq!(ticks, 3);
    assert_eq!(countdown_tick(3), Tick::Show(2));
    assert_eq!(countdown_tick(0), Tick::StartRecording);
}

#[test]
fn keeping_approves_or_uploads_only_in_review() {
    assert_eq!(keep_take_plan(Mode::Idle, true, true, Some(3)), KeepPlan::Ignore);
    assert_eq!(keep_take_plan(Mode::Review, false, true, Some(3)), KeepPlan::Ignore);
    assert_eq!(keep_take_plan(Mode::Review, true, false, None), KeepPlan::Ignore);
    assert_eq!(
        keep_take_plan(Mode::Review, true, true, Some(3)),
        KeepPlan::Approve { file: "take_003.mp3".into() }
    );
    assert_eq!(keep_take_plan(Mode::Review, true, true, None), KeepPlan::Upload);
    assert!(retake_allowed(Mode::Review));
    assert!(!retake_allowed(Mode::Recording));
    assert!(can_switch_clip(Mode::Idle));
    assert!(can_switch_clip(Mode::Review));
    assert!(!can_switch_clip(Mode::Countdown));
}

#[test]
fn keys_are_dispatched() {
    assert_eq!(key_command("Space", " ", false, 0, Some(3)), KeyCommand::Toggle);
    assert_eq!(key_command("Enter", "Enter", false, 0, Some(3)), KeyCommand::Keep);
    assert_eq!(key_command("KeyR", "r", false, 0, Some(3)), KeyCommand::Retake);
    assert_eq!(key_command("ArrowDown", "ArrowDown", true, 0, Some(3)), KeyCommand::Select(1));
    assert_eq!(key_command("ArrowRight", "ArrowRight", true, 2, Some(3)), KeyCommand::Select(2));
    assert_eq!(key_command("ArrowUp", "ArrowUp", true, 0, Some(3)), KeyCommand::Select(0));
    assert_eq!(key_command("ArrowLeft", "ArrowLeft", true, 2, Some(3)), KeyCommand::Select(1));
    assert_eq!(key_command("ArrowDown", "ArrowDown", false, 0, Some(3)), KeyCommand::Nothing);
    assert_eq!(key_command("ArrowDown", "ArrowDown", true, 0, None), KeyCommand::Select(0));
    assert_eq!(key_command("KeyX", "x", true, 0, Some(3)), KeyCommand::Nothing);
}

#[test]
fn arrows_never_leave_the_clip_list() {
    for count in 1..6usize {
        for current in 0..count {
            for key in ["ArrowDown", "ArrowUp"] {
                match key_command(key, key, true, current, Some(count)) {
                    KeyCommand::Select(i) => assert!(i < count),
                    other => panic!("unexpected {other:?}"),
                }
            }
        }
    }
}

#[test]
fn unlabelled_mics_get_a_name() {
    assert_eq!(
        mic_device("d1".into(), "".into()),
        MicDevice { id: "d1".into(), label: "microphone".into() }
    );
    assert_eq!(mic_device("d2".into(), "USB".into()).label, "USB");
}

#[test]
fn cleared_intervals_are_forgotten_in_order() {
    let mut slots = vec![(1, "a"), (2, "b"), (1, "c"), (3, "d")];
    clear_interval(&mut slots, 1);
    assert_eq!(slots, vec![(2, "b"), (3, "d")]);
    clear_interval(&mut slots, 9);
    assert_eq!(slots, vec![(2, "b"), (3, "d")]);
}

#[test]
fn api_urls() {
    assert_eq!(takes_url("a__b"), "/api/takes/a__b");
    assert_eq!(review_url("a__b"), "/api/review/a__b");
    assert_eq!(approve_url("a__b", "take_002.mp3"), "/api/approve/a__b/take_002.mp3");
}

#[test]
fn take_rows_open_one_at_a_time() {
    assert_eq!(toggle_open(None, "s__c/take-1"), Some("s__c/take-1".to_string()));
    assert_eq!(toggle_open(Some("s__c/take-1"), "s__c/take-1"), None);
    assert_eq!(
        toggle_open(Some("s__c/take-1"), "s__c/take-2"),
        Some("s__c/take-2".to_string())
    );
    let open = toggle_open(None, "/takes/a.mp3");
    assert_eq!(toggle_open(open.as_deref(), "/takes/a.mp3"), None);
}

#[test]
fn switching_clips_resets_the_review_but_keeps_the_rail() {
    let mut page: PageState<String> = PageState::new();
    assert_eq!(page.mode, Mode::Idle);
    assert_eq!(page.countdown, COUNTDOWN_FROM);
    page.begin_countdown();
    assert_eq!(page.mode, Mode::Countdown);
    page.mode = Mode::Review;
    page.review = Some("pace is good".to_string());
    page.review_error = Some("late".to_string());
    page.pending_take = Some(4);
    page.expanded = Some("s__c/take-4.mp3".to_string());
    page.playing = Some("/takes/s__c/take-4.mp3".to_string());
    page.countdown = 1;
    page.select(2);
    assert_eq!(page.current, 2);
    assert_eq!(page.mode, Mode::Idle);
    assert_eq!(page.review, None);
    assert_eq!(page.review_error, None);
    assert_eq!(page.pending_take, None);
    assert_eq!(page.expanded.as_deref(), Some("s__c/take-4.mp3"));
    assert_eq!(page.playing.as_deref(), Some("/takes/s__c/take-4.mp3"));
    page.begin_countdown();
    assert_eq!(page.countdown, COUNTDOWN_FROM);
    assert_eq!(page.playing, None);
    assert_eq!(page.current, 2);
    assert_eq!(page.expanded.as_deref(), Some("s__c/take-4.mp3"));
}
