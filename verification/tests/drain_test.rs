use mmterm::color::Color;
use mmterm::drain::{
    clipboard_response, drain_action, drain_all, drain_pane, extend_batch, osc52_reply,
    settle_deferred, take_batch_effects, trigger_bell, BellState, Deferred, DeferredKind,
    DrainAction, PaneInput, ParseEffect, SettleAction, PARSE_BATCH_MAX,
};
use mmterm::grid::Grid;

fn grid() -> Grid {
    Grid::with_colors(
        3,
        2,
        Color::rgb(255, 255, 255),
        Color::rgb(0, 0, 0),
        Color::rgb(1, 1, 1),
        Color::rgb(2, 2, 2),
        [Color::rgb(0, 0, 0); 16],
    )
}

#[test]
fn batch_cap_is_32_kib() {
    assert_eq!(PARSE_BATCH_MAX, 32 * 1024);
}

#[test]
fn quiet_batch_has_no_effects() {
    let mut g = grid();
    assert!(take_batch_effects(&mut g, 0).is_empty());
}

#[test]
fn batch_effects_in_order_and_cleared() {
    let mut g = grid();
    g.scroll_up(2);
    g.pending_responses = b"\x1b[0n".to_vec();
    g.pending_clipboard_write = Some("copied".to_string());
    g.pending_clipboard_read = true;
    g.bell_pending = true;
    let effects = take_batch_effects(&mut g, 0);
    assert_eq!(effects.len(), 5);
    assert!(matches!(effects[0], ParseEffect::ScrollbackChanged { old: 0, new: 2 }));
    assert!(matches!(&effects[1], ParseEffect::PtyResponse(r) if r.as_slice() == b"\x1b[0n"));
    assert!(matches!(&effects[2], ParseEffect::ClipboardWrite(t) if t == "copied"));
    assert!(matches!(effects[3], ParseEffect::ClipboardRead));
    assert!(matches!(effects[4], ParseEffect::Bell));
    assert!(g.pending_responses.is_empty());
    assert!(g.pending_clipboard_write.is_none());
    assert!(!g.pending_clipboard_read);
    assert!(!g.bell_pending);
    assert!(take_batch_effects(&mut g, 2).is_empty());
}

#[test]
fn scrollback_shrink_is_reported() {
    let mut g = grid();
    let effects = take_batch_effects(&mut g, 4);
    assert!(matches!(effects[0], ParseEffect::ScrollbackChanged { old: 4, new: 0 }));
}

#[test]
fn drain_scrollback_change_moves_scrolled_pane() {
    let a = drain_action(ParseEffect::ScrollbackChanged { old: 10, new: 13 }, 2, 100);
    assert!(matches!(a, DrainAction::ScrollTo(5)));
    let capped = drain_action(ParseEffect::ScrollbackChanged { old: 10, new: 13 }, 2, 4);
    assert!(matches!(capped, DrainAction::ScrollTo(4)));
    let shrink = drain_action(ParseEffect::ScrollbackChanged { old: 13, new: 10 }, 2, 100);
    assert!(matches!(shrink, DrainAction::ScrollTo(2)));
    let huge = drain_action(ParseEffect::ScrollbackChanged { old: 0, new: usize::MAX }, 2, 9);
    assert!(matches!(huge, DrainAction::ScrollTo(9)));
}

#[test]
fn drain_scrollback_change_ignored_when_following() {
    let a = drain_action(ParseEffect::ScrollbackChanged { old: 10, new: 13 }, 0, 100);
    assert!(matches!(a, DrainAction::Ignore));
}

#[test]
fn drain_other_effects() {
    assert!(matches!(
        drain_action(ParseEffect::PtyResponse(vec![1, 2]), 0, 0),
        DrainAction::WritePty(ref v) if v == &vec![1, 2]
    ));
    assert!(matches!(drain_action(ParseEffect::Bell, 3, 5), DrainAction::RingBell));
    assert!(matches!(
        drain_action(ParseEffect::ClipboardWrite("x".to_string()), 0, 0),
        DrainAction::Defer(DeferredKind::ClipboardWrite(ref t)) if t == "x"
    ));
    assert!(matches!(
        drain_action(ParseEffect::ClipboardRead, 0, 0),
        DrainAction::Defer(DeferredKind::ClipboardRead)
    ));
    assert!(matches!(
        drain_action(ParseEffect::Disconnected, 0, 0),
        DrainAction::DeferAndStop(DeferredKind::Disconnected)
    ));
}

#[test]
fn bell_flashes_then_cools_down() {
    let mut b = BellState { flash_start: None, flash_until: None, cooldown_until: None };
    trigger_bell(&mut b, 1000);
    assert_eq!(b.flash_start, Some(1000));
    assert_eq!(b.flash_until, Some(1150));
    assert_eq!(b.cooldown_until, Some(1500));
    trigger_bell(&mut b, 1499);
    assert_eq!(b.flash_start, Some(1000));
    trigger_bell(&mut b, 1500);
    assert_eq!(b.flash_start, Some(1500));
    assert_eq!(b.cooldown_until, Some(2000));
}

#[test]
fn clipboard_response_is_osc52_base64() {
    assert_eq!(clipboard_response("hi"), "\x1b]52;c;aGk=\x1b\\");
    assert_eq!(clipboard_response(""), "\x1b]52;c;\x1b\\");
    assert_eq!(clipboard_response("é"), "\x1b]52;c;w6k=\x1b\\");
}

#[test]
fn osc52_reply_wraps_text() {
    assert_eq!(osc52_reply("QUJD"), "\x1b]52;c;QUJD\x1b\\");
}

#[test]
fn clipboard_response_pads_partial_groups() {
    assert_eq!(clipboard_response("abc"), "\x1b]52;c;YWJj\x1b\\");
    assert_eq!(clipboard_response("ab"), "\x1b]52;c;YWI=\x1b\\");
    assert_eq!(clipboard_response("hello world"), "\x1b]52;c;aGVsbG8gd29ybGQ=\x1b\\");
}

#[test]
fn drain_pane_applies_effects_in_order() {
    let effects = vec![
        ParseEffect::PtyResponse(b"x".to_vec()),
        ParseEffect::ScrollbackChanged { old: 10, new: 13 },
        ParseEffect::Bell,
        ParseEffect::ClipboardWrite("t".to_string()),
        ParseEffect::PtyResponse(b"y".to_vec()),
        ParseEffect::ClipboardRead,
    ];
    let d = drain_pane(effects, 1, 7, 2, 20);
    assert_eq!(d.writes, vec![b"x".to_vec(), b"y".to_vec()]);
    assert_eq!(d.scroll_offset, 5);
    assert!(d.bell);
    assert!(!d.stopped);
    assert_eq!(d.deferred.len(), 2);
    assert_eq!((d.deferred[0].tab_idx, d.deferred[0].pane_id), (1, 7));
    assert!(matches!(&d.deferred[0].kind, DeferredKind::ClipboardWrite(t) if t == "t"));
    assert!(matches!(d.deferred[1].kind, DeferredKind::ClipboardRead));
}

#[test]
fn drain_pane_stops_at_disconnect() {
    let effects = vec![
        ParseEffect::PtyResponse(b"a".to_vec()),
        ParseEffect::Disconnected,
        ParseEffect::Bell,
        ParseEffect::PtyResponse(b"b".to_vec()),
        ParseEffect::ClipboardRead,
    ];
    let d = drain_pane(effects, 0, 3, 0, 5);
    assert_eq!(d.writes, vec![b"a".to_vec()]);
    assert!(!d.bell);
    assert!(d.stopped);
    assert_eq!(d.deferred.len(), 1);
    assert!(matches!(d.deferred[0].kind, DeferredKind::Disconnected));
}

#[test]
fn drain_pane_following_pane_stays_at_bottom() {
    let d = drain_pane(vec![ParseEffect::ScrollbackChanged { old: 0, new: 40 }], 0, 0, 0, 40);
    assert_eq!(d.scroll_offset, 0);
    let capped = drain_pane(vec![ParseEffect::ScrollbackChanged { old: 0, new: 40 }], 0, 0, 10, 30);
    assert_eq!(capped.scroll_offset, 30);
}

#[test]
fn settle_plans_clipboard_work_in_order() {
    let deferred = vec![
        Deferred { tab_idx: 0, pane_id: 1, kind: DeferredKind::ClipboardRead },
        Deferred { tab_idx: 0, pane_id: 2, kind: DeferredKind::ClipboardWrite("new".to_string()) },
        Deferred { tab_idx: 1, pane_id: 3, kind: DeferredKind::ClipboardRead },
        Deferred { tab_idx: 1, pane_id: 3, kind: DeferredKind::Disconnected },
    ];
    let actions = settle_deferred(deferred, true);
    assert_eq!(actions.len(), 4);
    assert!(matches!(actions[0], SettleAction::AnswerClipboard { tab_idx: 0, pane_id: 1 }));
    assert!(matches!(&actions[1], SettleAction::SetClipboard(t) if t == "new"));
    assert!(matches!(actions[2], SettleAction::AnswerClipboard { tab_idx: 1, pane_id: 3 }));
    assert!(matches!(actions[3], SettleAction::Exit { tab_idx: 1, pane_id: 3 }));
}

#[test]
fn settle_without_clipboard_drops_writes_and_answers_empty() {
    let deferred = vec![
        Deferred { tab_idx: 0, pane_id: 2, kind: DeferredKind::ClipboardWrite("lost".to_string()) },
        Deferred { tab_idx: 2, pane_id: 9, kind: DeferredKind::ClipboardRead },
        Deferred { tab_idx: 2, pane_id: 9, kind: DeferredKind::Disconnected },
    ];
    let actions = settle_deferred(deferred, false);
    assert_eq!(actions.len(), 2);
    assert!(matches!(
        &actions[0],
        SettleAction::Reply { tab_idx: 2, pane_id: 9, reply } if reply == "\x1b]52;c;\x1b\\"
    ));
    assert!(matches!(actions[1], SettleAction::Exit { tab_idx: 2, pane_id: 9 }));
}

fn quiet_bell() -> BellState {
    BellState { flash_start: None, flash_until: None, cooldown_until: None }
}

#[test]
fn drain_all_rings_each_tab_once_and_gathers_work() {
    let inputs = vec![
        PaneInput {
            tab_idx: 0,
            pane_id: 1,
            effects: vec![ParseEffect::Bell, ParseEffect::ClipboardRead, ParseEffect::Bell],
            scroll_offset: 0,
            current_sb: 0,
        },
        PaneInput {
            tab_idx: 0,
            pane_id: 2,
            effects: vec![ParseEffect::Bell, ParseEffect::Disconnected],
            scroll_offset: 0,
            current_sb: 0,
        },
        PaneInput {
            tab_idx: 2,
            pane_id: 5,
            effects: vec![ParseEffect::PtyResponse(b"ok".to_vec())],
            scroll_offset: 0,
            current_sb: 0,
        },
    ];
    let cooling = BellState { flash_start: Some(100), flash_until: Some(250), cooldown_until: Some(5000) };
    let mut bells = vec![quiet_bell(), quiet_bell(), cooling];
    let plan = drain_all(inputs, &mut bells, 1000);
    assert_eq!(bells[0].flash_start, Some(1000));
    assert_eq!(bells[0].flash_until, Some(1150));
    assert_eq!(bells[0].cooldown_until, Some(1500));
    assert_eq!(bells[1].flash_start, None);
    assert_eq!(bells[2].flash_start, Some(100));
    assert_eq!(plan.panes.len(), 3);
    assert!(plan.panes[0].bell && plan.panes[1].bell && !plan.panes[2].bell);
    assert!(plan.panes[1].stopped);
    assert_eq!(plan.panes[2].writes, vec![b"ok".to_vec()]);
    assert!(plan.panes.iter().all(|p| p.deferred.is_empty()));
    assert_eq!(plan.deferred.len(), 2);
    assert_eq!((plan.deferred[0].tab_idx, plan.deferred[0].pane_id), (0, 1));
    assert!(matches!(plan.deferred[0].kind, DeferredKind::ClipboardRead));
    assert_eq!((plan.deferred[1].tab_idx, plan.deferred[1].pane_id), (0, 2));
    assert!(matches!(plan.deferred[1].kind, DeferredKind::Disconnected));
}

#[test]
fn extend_batch_stops_at_the_cap() {
    let mut batch = Vec::new();
    assert!(extend_batch(&mut batch, &[1, 2, 3]));
    assert_eq!(batch, vec![1, 2, 3]);
    let big = vec![7u8; PARSE_BATCH_MAX - 3];
    assert!(!extend_batch(&mut batch, &big));
    assert_eq!(batch.len(), PARSE_BATCH_MAX);
    assert_eq!(batch[3], 7);
}
