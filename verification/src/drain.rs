use vstd::prelude::*;

use crate::grid::Grid;
use crate::statusbar::opt_string_view;
use vstd::string::StringSliceAdditionalSpecFns;
use crate::text::{push_char, push_str};

verus! {

/// Bytes drained from the pty channel per parser iteration at most; caps
/// how long the grid stays write-locked.
pub const PARSE_BATCH_MAX: usize = 32768;

/// Appends the pty output `more` to the batch being collected and tells
/// whether the batch may take more: only while it is under
/// `PARSE_BATCH_MAX` bytes.
pub fn extend_batch(batch: &mut Vec<u8>, more: &[u8]) -> (wants_more: bool)
    requires
        old(batch)@.len() + more@.len() <= usize::MAX,
    ensures
        final(batch)@ == old(batch)@ + more@,
        wants_more == (final(batch)@.len() < PARSE_BATCH_MAX),
{
    let ghost start = batch@;
    let mut i: usize = 0;
    while i < more.len()
        invariant
            i <= more@.len(),
            batch@ == start + more@.take(i as int),
        decreases more@.len() - i,
    {
        batch.push(more[i]);
        assert(more@.take(i as int + 1) =~= more@.take(i as int).push(more@[i as int]));
        i = i + 1;
    }
    assert(more@.take(i as int) =~= more@);
    batch.len() < PARSE_BATCH_MAX
}

/// Side effects of a batch of parsed output, produced on the parser thread
/// and consumed on the main thread.
pub enum ParseEffect {
    /// Bytes to write back to the pty.
    PtyResponse(Vec<u8>),
    /// Text to put on the clipboard.
    ClipboardWrite(String),
    /// The program asked for the clipboard's contents.
    ClipboardRead,
    Bell,
    /// The scrollback length changed; `old` may be greater than `new` when
    /// the alternate screen was entered.
    ScrollbackChanged { old: usize, new: usize },
    /// The pty reached end of file: the pane should close.
    Disconnected,
}

/// A parse effect with its payload as sequences.
pub enum EffectModel {
    PtyResponse(Seq<u8>),
    ClipboardWrite(Seq<char>),
    ClipboardRead,
    Bell,
    ScrollbackChanged { old: nat, new: nat },
    Disconnected,
}

impl View for ParseEffect {
    type V = EffectModel;

    open spec fn view(&self) -> EffectModel {
        match self {
            ParseEffect::PtyResponse(r) => EffectModel::PtyResponse(r@),
            ParseEffect::ClipboardWrite(t) => EffectModel::ClipboardWrite(t@),
            ParseEffect::ClipboardRead => EffectModel::ClipboardRead,
            ParseEffect::Bell => EffectModel::Bell,
            ParseEffect::ScrollbackChanged { old, new } => EffectModel::ScrollbackChanged {
                old: *old as nat,
                new: *new as nat,
            },
            ParseEffect::Disconnected => EffectModel::Disconnected,
        }
    }
}

pub open spec fn effects_view(v: Seq<ParseEffect>) -> Seq<EffectModel> {
    v.map_values(|e: ParseEffect| e@)
}

pub open spec fn effect_if(cond: bool, e: EffectModel) -> Seq<EffectModel> {
    if cond {
        seq![e]
    } else {
        Seq::empty()
    }
}

/// The effects a parsed batch produces, in order: a scrollback change when
/// its length moved, the owed pty response when there is one, a clipboard
/// write, a clipboard read, a bell.
pub open spec fn batch_effects(
    old_sb: nat,
    new_sb: nat,
    response: Seq<u8>,
    clipboard_write: Option<Seq<char>>,
    clipboard_read: bool,
    bell: bool,
) -> Seq<EffectModel> {
    effect_if(old_sb != new_sb, EffectModel::ScrollbackChanged { old: old_sb, new: new_sb })
        + effect_if(response.len() > 0, EffectModel::PtyResponse(response))
        + effect_if(clipboard_write is Some, EffectModel::ClipboardWrite(clipboard_write.unwrap()))
        + effect_if(clipboard_read, EffectModel::ClipboardRead)
        + effect_if(bell, EffectModel::Bell)
}

/// Takes what the parser left pending on `grid` after a batch (response
/// bytes, clipboard requests, the bell) and turns it into effects, with a
/// scrollback change from `old_sb` to the grid's current length.  The
/// pending fields are left empty; nothing else of the grid changes.
pub fn take_batch_effects(grid: &mut Grid, old_sb: usize) -> (effects: Vec<ParseEffect>)
    ensures
        effects_view(effects@) == batch_effects(
            old_sb as nat,
            old(grid)@.history.len(),
            old(grid).pending_responses@,
            opt_string_view(old(grid).pending_clipboard_write),
            old(grid).pending_clipboard_read,
            old(grid).bell_pending,
        ),
        final(grid)@ == old(grid)@,
        final(grid).pending_responses@.len() == 0,
        final(grid).pending_clipboard_write is None,
        !final(grid).pending_clipboard_read,
        !final(grid).bell_pending,
        final(grid).cursor_color == old(grid).cursor_color,
        final(grid).selection_color == old(grid).selection_color,
        final(grid).palette == old(grid).palette,
{
    let new_sb = grid.scrollback_len();
    let mut response: Vec<u8> = Vec::new();
    std::mem::swap(&mut response, &mut grid.pending_responses);
    let clipboard_write = grid.pending_clipboard_write.take();
    let clipboard_read = grid.pending_clipboard_read;
    grid.pending_clipboard_read = false;
    let bell = grid.bell_pending;
    grid.bell_pending = false;

    let ghost r = response@;
    let ghost cw = opt_string_view(clipboard_write);
    let mut effects: Vec<ParseEffect> = Vec::new();
    let ghost mut expected: Seq<EffectModel> = Seq::empty();
    if new_sb != old_sb {
        effects.push(ParseEffect::ScrollbackChanged { old: old_sb, new: new_sb });
    }
    proof {
        expected = effect_if(old_sb != new_sb, EffectModel::ScrollbackChanged { old: old_sb as nat, new: new_sb as nat });
    }
    assert(effects_view(effects@) =~= expected);
    if response.len() > 0 {
        effects.push(ParseEffect::PtyResponse(response));
    }
    proof {
        expected = expected + effect_if(r.len() > 0, EffectModel::PtyResponse(r));
    }
    assert(effects_view(effects@) =~= expected);
    match clipboard_write {
        Some(t) => effects.push(ParseEffect::ClipboardWrite(t)),
        None => {},
    }
    proof {
        expected = expected + effect_if(cw is Some, EffectModel::ClipboardWrite(cw.unwrap()));
    }
    assert(effects_view(effects@) =~= expected);
    if clipboard_read {
        effects.push(ParseEffect::ClipboardRead);
    }
    proof {
        expected = expected + effect_if(clipboard_read, EffectModel::ClipboardRead);
    }
    assert(effects_view(effects@) =~= expected);
    if bell {
        effects.push(ParseEffect::Bell);
    }
    proof {
        expected = expected + effect_if(bell, EffectModel::Bell);
    }
    assert(effects_view(effects@) =~= expected);
    effects
}

/// Work that draining an effect leaves for after every pane was drained.
pub enum DeferredKind {
    ClipboardWrite(String),
    ClipboardRead,
    Disconnected,
}

/// A deferred kind with its text as a sequence.
pub enum DeferredKindModel {
    ClipboardWrite(Seq<char>),
    ClipboardRead,
    Disconnected,
}

impl View for DeferredKind {
    type V = DeferredKindModel;

    open spec fn view(&self) -> DeferredKindModel {
        match self {
            DeferredKind::ClipboardWrite(t) => DeferredKindModel::ClipboardWrite(t@),
            DeferredKind::ClipboardRead => DeferredKindModel::ClipboardRead,
            DeferredKind::Disconnected => DeferredKindModel::Disconnected,
        }
    }
}

/// Deferred work with the tab and pane it came from.
pub struct Deferred {
    pub tab_idx: usize,
    pub pane_id: usize,
    pub kind: DeferredKind,
}

pub struct DeferredModel {
    pub tab_idx: nat,
    pub pane_id: nat,
    pub kind: DeferredKindModel,
}

impl View for Deferred {
    type V = DeferredModel;

    open spec fn view(&self) -> DeferredModel {
        DeferredModel {
            tab_idx: self.tab_idx as nat,
            pane_id: self.pane_id as nat,
            kind: self.kind@,
        }
    }
}

pub open spec fn deferred_view(v: Seq<Deferred>) -> Seq<DeferredModel> {
    v.map_values(|d: Deferred| d@)
}

/// What the main thread does with one effect of a pane.
pub enum DrainAction {
    /// Write these bytes to the pane's pty.
    WritePty(Vec<u8>),
    /// Set the pane's scroll offset.
    ScrollTo(usize),
    /// Nothing to do.
    Ignore,
    /// Flash the bell of the pane's tab.
    RingBell,
    /// Keep this for after draining and go on with the pane's effects.
    Defer(DeferredKind),
    /// Keep this for after draining and stop draining the pane.
    DeferAndStop(DeferredKind),
}

/// The scroll offset that keeps a scrolled-back pane on the same lines
/// after the scrollback grew from `old` to `new` lines: moved by the growth,
/// capped by the scrollback's current length `current_sb`.
pub open spec fn offset_after_growth(offset: nat, old: nat, new: nat, current_sb: nat) -> nat {
    let added: nat = if new >= old { (new - old) as nat } else { 0 };
    if offset + added <= current_sb {
        offset + added
    } else {
        current_sb
    }
}

/// Decides what draining `effect` does to a pane scrolled back by
/// `scroll_offset` lines whose scrollback now holds `current_sb` lines.  A
/// pane following the output (offset 0) is not scrolled; the cap is the
/// current length, as the scrollback may have shrunk since the effect was
/// produced.
pub fn drain_action(effect: ParseEffect, scroll_offset: usize, current_sb: usize) -> (action:
    DrainAction)
    ensures
        match effect {
            ParseEffect::PtyResponse(r) => action == DrainAction::WritePty(r),
            ParseEffect::ScrollbackChanged { old, new } => if scroll_offset > 0 {
                action == DrainAction::ScrollTo(
                    offset_after_growth(scroll_offset as nat, old as nat, new as nat, current_sb as nat)
                        as usize,
                )
            } else {
                action == DrainAction::Ignore
            },
            ParseEffect::Bell => action == DrainAction::RingBell,
            ParseEffect::ClipboardWrite(t) => action == DrainAction::Defer(
                DeferredKind::ClipboardWrite(t),
            ),
            ParseEffect::ClipboardRead => action == DrainAction::Defer(DeferredKind::ClipboardRead),
            ParseEffect::Disconnected => action == DrainAction::DeferAndStop(
                DeferredKind::Disconnected,
            ),
        },
{
    match effect {
        ParseEffect::PtyResponse(r) => DrainAction::WritePty(r),
        ParseEffect::ScrollbackChanged { old, new } => {
            if scroll_offset > 0 {
                let added = if new >= old { new - old } else { 0 };
                DrainAction::ScrollTo(crate::pane::add_capped(scroll_offset, added, current_sb))
            } else {
                DrainAction::Ignore
            }
        },
        ParseEffect::Bell => DrainAction::RingBell,
        ParseEffect::ClipboardWrite(t) => DrainAction::Defer(DeferredKind::ClipboardWrite(t)),
        ParseEffect::ClipboardRead => DrainAction::Defer(DeferredKind::ClipboardRead),
        ParseEffect::Disconnected => DrainAction::DeferAndStop(DeferredKind::Disconnected),
    }
}

/// What draining a pane's effects leaves to do: the bytes to write to its
/// pty, in order, its new scroll offset, whether its tab's bell rings, the
/// work kept for after every pane was drained, and whether the pane
/// disconnected (no effect after that is drained).
pub struct PaneDrain {
    pub writes: Vec<Vec<u8>>,
    pub scroll_offset: usize,
    pub bell: bool,
    pub deferred: Vec<Deferred>,
    pub stopped: bool,
}

#[verifier::ext_equal]
pub struct PaneDrainModel {
    pub writes: Seq<Seq<u8>>,
    pub scroll_offset: nat,
    pub bell: bool,
    pub deferred: Seq<DeferredModel>,
    pub stopped: bool,
}

impl View for PaneDrain {
    type V = PaneDrainModel;

    open spec fn view(&self) -> PaneDrainModel {
        PaneDrainModel {
            writes: self.writes@.map_values(|w: Vec<u8>| w@),
            scroll_offset: self.scroll_offset as nat,
            bell: self.bell,
            deferred: deferred_view(self.deferred@),
            stopped: self.stopped,
        }
    }
}

/// A pane that nothing was drained from yet, scrolled back by `offset`.
pub open spec fn drain_start(offset: nat) -> PaneDrainModel {
    PaneDrainModel {
        writes: Seq::empty(),
        scroll_offset: offset,
        bell: false,
        deferred: Seq::empty(),
        stopped: false,
    }
}

/// Draining one more effect `e` of pane `pane` in tab `tab`, whose
/// scrollback holds `current_sb` lines.
pub open spec fn drain_step(
    m: PaneDrainModel,
    e: EffectModel,
    tab: nat,
    pane: nat,
    current_sb: nat,
) -> PaneDrainModel {
    if m.stopped {
        m
    } else {
        match e {
            EffectModel::PtyResponse(r) => PaneDrainModel { writes: m.writes.push(r), ..m },
            EffectModel::ScrollbackChanged { old, new } => if m.scroll_offset > 0 {
                PaneDrainModel {
                    scroll_offset: offset_after_growth(m.scroll_offset, old, new, current_sb),
                    ..m
                }
            } else {
                m
            },
            EffectModel::Bell => PaneDrainModel { bell: true, ..m },
            EffectModel::ClipboardWrite(t) => PaneDrainModel {
                deferred: m.deferred.push(
                    DeferredModel { tab_idx: tab, pane_id: pane, kind: DeferredKindModel::ClipboardWrite(t) },
                ),
                ..m
            },
            EffectModel::ClipboardRead => PaneDrainModel {
                deferred: m.deferred.push(
                    DeferredModel { tab_idx: tab, pane_id: pane, kind: DeferredKindModel::ClipboardRead },
                ),
                ..m
            },
            EffectModel::Disconnected => PaneDrainModel {
                deferred: m.deferred.push(
                    DeferredModel { tab_idx: tab, pane_id: pane, kind: DeferredKindModel::Disconnected },
                ),
                stopped: true,
                ..m
            },
        }
    }
}

/// Draining the effects `effects` in order, from `m`.
pub open spec fn drain_fold(
    effects: Seq<EffectModel>,
    m: PaneDrainModel,
    tab: nat,
    pane: nat,
    current_sb: nat,
) -> PaneDrainModel
    decreases effects.len(),
{
    if effects.len() == 0 {
        m
    } else {
        drain_step(
            drain_fold(effects.drop_last(), m, tab, pane, current_sb),
            effects.last(),
            tab,
            pane,
            current_sb,
        )
    }
}

/// Drains the effects that pane `pane_id` of tab `tab_idx` has queued, in
/// order: responses are written to its pty, a scrollback change moves a
/// scrolled-back pane along (capped by the current length `current_sb`), a
/// bell rings the tab, clipboard work and a disconnect wait for after the
/// drain, and a disconnect ends the pane's drain.
pub fn drain_pane(
    effects: Vec<ParseEffect>,
    tab_idx: usize,
    pane_id: usize,
    scroll_offset: usize,
    current_sb: usize,
) -> (d: PaneDrain)
    ensures
        d@ == drain_fold(
            effects_view(effects@),
            drain_start(scroll_offset as nat),
            tab_idx as nat,
            pane_id as nat,
            current_sb as nat,
        ),
{
    let ghost all = effects_view(effects@);
    let ghost tab = tab_idx as nat;
    let ghost pane = pane_id as nat;
    let ghost sb = current_sb as nat;
    let mut rest = effects;
    let mut d = PaneDrain {
        writes: Vec::new(),
        scroll_offset,
        bell: false,
        deferred: Vec::new(),
        stopped: false,
    };
    let ghost mut done: nat = 0;
    assert(d@ =~= drain_start(scroll_offset as nat));
    assert(all.take(0) =~= Seq::<EffectModel>::empty());
    assert(effects_view(rest@) =~= all.skip(0));
    while rest.len() > 0
        invariant
            done <= all.len(),
            effects_view(rest@) == all.skip(done as int),
            d@ == drain_fold(all.take(done as int), drain_start(scroll_offset as nat), tab, pane, sb),
            tab == tab_idx as nat,
            pane == pane_id as nat,
            sb == current_sb as nat,
        decreases rest.len(),
    {
        let ghost old_rest = rest@;
        let e = rest.remove(0);
        let ghost ev = e@;
        let ghost before = d@;
        proof {
            assert(effects_view(old_rest).len() == old_rest.len());
            assert(done < all.len());
            assert(effects_view(old_rest)[0] == ev);
            assert(all.skip(done as int)[0] == all[done as int]);
            assert(all[done as int] == ev);
            assert(all.take(done as int + 1).drop_last() =~= all.take(done as int));
            assert(all.take(done as int + 1).last() == ev);
            assert(rest@ =~= old_rest.skip(1));
            assert forall|i: int| 0 <= i < rest@.len() implies effects_view(rest@)[i] == all.skip(
                done as int + 1,
            )[i] by {
                assert(effects_view(rest@)[i] == old_rest[i + 1]@);
                assert(effects_view(old_rest)[i + 1] == all.skip(done as int)[i + 1]);
            }
            assert(effects_view(rest@) =~= all.skip(done as int + 1));
        }
        if !d.stopped {
            match drain_action(e, d.scroll_offset, current_sb) {
                DrainAction::WritePty(r) => {
                    d.writes.push(r);
                },
                DrainAction::ScrollTo(n) => {
                    d.scroll_offset = n;
                },
                DrainAction::Ignore => {},
                DrainAction::RingBell => {
                    d.bell = true;
                },
                DrainAction::Defer(kind) => {
                    d.deferred.push(Deferred { tab_idx, pane_id, kind });
                },
                DrainAction::DeferAndStop(kind) => {
                    d.deferred.push(Deferred { tab_idx, pane_id, kind });
                    d.stopped = true;
                },
            }
        }
        proof {
            assert(d@ =~= drain_step(before, ev, tab, pane, sb));
            done = done + 1;
        }
    }
    proof {
        assert(all.take(done as int) =~= all);
    }
    d
}

proof fn lemma_drain_fold_append(
    a: Seq<EffectModel>,
    b: Seq<EffectModel>,
    m: PaneDrainModel,
    tab: nat,
    pane: nat,
    sb: nat,
)
    ensures
        drain_fold(a + b, m, tab, pane, sb) == drain_fold(b, drain_fold(a, m, tab, pane, sb), tab, pane, sb),
    decreases b.len(),
{
    if b.len() == 0 {
        assert(a + b =~= a);
    } else {
        assert((a + b).drop_last() =~= a + b.drop_last());
        assert((a + b).last() == b.last());
        lemma_drain_fold_append(a, b.drop_last(), m, tab, pane, sb);
    }
}

proof fn lemma_stopped_drain(effects: Seq<EffectModel>, m: PaneDrainModel, tab: nat, pane: nat, sb: nat)
    requires
        m.stopped,
    ensures
        drain_fold(effects, m, tab, pane, sb) == m,
    decreases effects.len(),
{
    if effects.len() > 0 {
        lemma_stopped_drain(effects.drop_last(), m, tab, pane, sb);
    }
}

/// A disconnect ends a pane's drain: it is deferred as the last item, and
/// whatever effects follow it change nothing.
pub proof fn lemma_disconnect_ends_drain(
    before: Seq<EffectModel>,
    after: Seq<EffectModel>,
    m: PaneDrainModel,
    tab: nat,
    pane: nat,
    sb: nat,
)
    requires
        !drain_fold(before, m, tab, pane, sb).stopped,
    ensures
        ({
            let stop = drain_fold(before.push(EffectModel::Disconnected), m, tab, pane, sb);
            &&& stop.stopped
            &&& stop.deferred.last() == (DeferredModel {
                tab_idx: tab,
                pane_id: pane,
                kind: DeferredKindModel::Disconnected,
            })
            &&& drain_fold(before.push(EffectModel::Disconnected) + after, m, tab, pane, sb) == stop
        }),
{
    let stop = drain_fold(before.push(EffectModel::Disconnected), m, tab, pane, sb);
    assert(before.push(EffectModel::Disconnected).drop_last() =~= before);
    lemma_drain_fold_append(before.push(EffectModel::Disconnected), after, m, tab, pane, sb);
    lemma_stopped_drain(after, stop, tab, pane, sb);
}

/// Milliseconds that a bell flash lasts.
pub const BELL_FLASH_MS: u64 = 150;

/// Milliseconds after a bell during which further bells are ignored.
pub const BELL_COOLDOWN_MS: u64 = 500;

/// The visual bell of a tab; times are milliseconds on a monotonic clock.
#[derive(Clone, Copy)]
pub struct BellState {
    pub flash_start: Option<u64>,
    pub flash_until: Option<u64>,
    pub cooldown_until: Option<u64>,
}

/// The bell is not cooling down at time `now`.
pub open spec fn bell_cooled(b: BellState, now: u64) -> bool {
    match b.cooldown_until {
        None => true,
        Some(until) => now >= until,
    }
}

/// The bell state after a bell rings at `now`: a new flash starts unless
/// the previous bell is still cooling down.
pub open spec fn bell_after(b: BellState, now: u64) -> BellState {
    if bell_cooled(b, now) {
        BellState {
            flash_start: Some(now),
            flash_until: Some((now + BELL_FLASH_MS) as u64),
            cooldown_until: Some((now + BELL_COOLDOWN_MS) as u64),
        }
    } else {
        b
    }
}

/// Rings the bell of a tab at time `now` (milliseconds).
pub fn trigger_bell(tab: &mut BellState, now: u64)
    requires
        now <= u64::MAX - BELL_COOLDOWN_MS,
    ensures
        *final(tab) == bell_after(*old(tab), now),
{
    let cooled = match tab.cooldown_until {
        None => true,
        Some(until) => now >= until,
    };
    if cooled {
        tab.flash_start = Some(now);
        tab.flash_until = Some(now + BELL_FLASH_MS);
        tab.cooldown_until = Some(now + BELL_COOLDOWN_MS);
    }
}

/// A bell that rings while the previous one cools down changes nothing; a
/// bell after the cool-down starts a new flash that ends after
/// `BELL_FLASH_MS`.
pub proof fn lemma_bell_cooldown(b: BellState, t1: u64, t2: u64)
    requires
        t1 <= u64::MAX - BELL_COOLDOWN_MS,
        t1 <= t2,
    ensures
        bell_cooled(b, t1) && t2 < t1 + BELL_COOLDOWN_MS ==> bell_after(bell_after(b, t1), t2)
            == bell_after(b, t1),
        bell_cooled(b, t1) && t2 >= t1 + BELL_COOLDOWN_MS ==> bell_cooled(bell_after(b, t1), t2),
        bell_cooled(b, t1) ==> bell_after(b, t1).flash_until == Some((t1 + BELL_FLASH_MS) as u64),
{
}

/// Following a scrollback growth keeps a scrolled-back pane on the same
/// lines (its offset grows by the lines added) unless that would pass the
/// start of the scrollback, and never leaves the scrollback.
pub proof fn lemma_growth_keeps_view(offset: nat, old: nat, new: nat, current_sb: nat)
    ensures
        offset_after_growth(offset, old, new, current_sb) <= current_sb,
        new >= old && offset + (new - old) <= current_sb ==> offset_after_growth(
            offset,
            old,
            new,
            current_sb,
        ) == offset + (new - old),
{
}

/// A batch that left nothing pending and did not move the scrollback
/// produces no effect.
pub proof fn lemma_quiet_batch(sb: nat)
    ensures
        batch_effects(sb, sb, Seq::empty(), None, false, false) == Seq::<EffectModel>::empty(),
{
    assert(batch_effects(sb, sb, Seq::empty(), None, false, false) =~= Seq::<EffectModel>::empty());
}

/// The digit of the standard base64 alphabet (`A`–`Z`, `a`–`z`, `0`–`9`,
/// `+`, `/`) for a 6-bit value.
pub open spec fn base64_digit(v: nat) -> char {
    if v < 26 {
        (65 + v) as char
    } else if v < 52 {
        (97 + v - 26) as char
    } else if v < 62 {
        (48 + v - 52) as char
    } else if v == 62 {
        '+'
    } else {
        '/'
    }
}

/// Base64 with the standard alphabet and `=` padding: every three bytes
/// become four digits of six bits each, most significant first; a last
/// group of one or two bytes is padded with zero bits and `=`.
pub open spec fn base64_standard(data: Seq<u8>) -> Seq<char>
    decreases data.len(),
{
    if data.len() == 0 {
        Seq::empty()
    } else if data.len() == 1 {
        let b0 = data[0] as nat;
        seq![base64_digit(b0 / 4), base64_digit((b0 % 4) * 16), '=', '=']
    } else if data.len() == 2 {
        let b0 = data[0] as nat;
        let b1 = data[1] as nat;
        seq![
            base64_digit(b0 / 4),
            base64_digit((b0 % 4) * 16 + b1 / 16),
            base64_digit((b1 % 16) * 4),
            '=',
        ]
    } else {
        let b0 = data[0] as nat;
        let b1 = data[1] as nat;
        let b2 = data[2] as nat;
        seq![
            base64_digit(b0 / 4),
            base64_digit((b0 % 4) * 16 + b1 / 16),
            base64_digit((b1 % 16) * 4 + b2 / 64),
            base64_digit(b2 % 64),
        ] + base64_standard(data.skip(3))
    }
}

/// Encodes `data` with base64's `general_purpose::STANDARD` engine, which
/// the crate documents as the standard alphabet with padding: the contract
/// states that encoding (`base64_standard`).
#[verifier::external_body]
fn base64_encode(data: &[u8]) -> (s: String)
    ensures
        s@ == base64_standard(data@),
{
    base64::Engine::encode(&base64::engine::general_purpose::STANDARD, data)
}

/// The OSC 52 sequence that answers a clipboard query with the
/// base64-encoded text `encoded`.
pub open spec fn osc52_text(encoded: Seq<char>) -> Seq<char> {
    seq!['\x1b', ']', '5', '2', ';', 'c', ';'] + encoded + seq!['\x1b', '\\']
}

/// Wraps base64 text in an OSC 52 clipboard reply.
pub fn osc52_reply(encoded: &str) -> (s: String)
    ensures
        s@ == osc52_text(encoded@),
{
    let mut s = String::new();
    push_char(&mut s, '\x1b');
    push_char(&mut s, ']');
    push_char(&mut s, '5');
    push_char(&mut s, '2');
    push_char(&mut s, ';');
    push_char(&mut s, 'c');
    push_char(&mut s, ';');
    push_str(&mut s, encoded);
    push_char(&mut s, '\x1b');
    push_char(&mut s, '\\');
    assert(s@ =~= osc52_text(encoded@));
    s
}

/// The reply to a clipboard query whose clipboard holds `text`: its UTF-8
/// bytes in base64, in an OSC 52 sequence.
pub fn clipboard_response(text: &str) -> (s: String)
    ensures
        s@ == osc52_text(base64_standard(text.spec_bytes())),
{
    let encoded = base64_encode(text.as_bytes());
    osc52_reply(encoded.as_str())
}

/// The effects drained from pane `pane_id` of tab `tab_idx`, with the
/// pane's scroll offset and its scrollback's current length.
pub struct PaneInput {
    pub tab_idx: usize,
    pub pane_id: usize,
    pub effects: Vec<ParseEffect>,
    pub scroll_offset: usize,
    pub current_sb: usize,
}

/// What draining the pane of `input` gives.
pub open spec fn pane_result(input: PaneInput) -> PaneDrainModel {
    drain_fold(
        effects_view(input.effects@),
        drain_start(input.scroll_offset as nat),
        input.tab_idx as nat,
        input.pane_id as nat,
        input.current_sb as nat,
    )
}

/// A pane among the first `n` of `inputs` belongs to tab `tab` and rang
/// its bell.
pub open spec fn bell_rang(inputs: Seq<PaneInput>, tab: nat, n: nat) -> bool
    decreases n,
{
    if n == 0 {
        false
    } else {
        bell_rang(inputs, tab, (n - 1) as nat) || (inputs[n - 1].tab_idx == tab && pane_result(
            inputs[n - 1],
        ).bell)
    }
}

/// A tab's bell rang in a drain exactly when at least one of its drained
/// panes rang: a pane that rang nothing never cancels another's ring.
pub proof fn lemma_bell_rang_by_any_pane(inputs: Seq<PaneInput>, tab: nat, n: nat)
    requires
        n <= inputs.len(),
    ensures
        bell_rang(inputs, tab, n) <==> exists|i: int|
            0 <= i < n && inputs[i].tab_idx == tab && #[trigger] pane_result(inputs[i]).bell,
    decreases n,
{
    if n > 0 {
        lemma_bell_rang_by_any_pane(inputs, tab, (n - 1) as nat);
        if exists|i: int|
            0 <= i < n && inputs[i].tab_idx == tab && #[trigger] pane_result(inputs[i]).bell {
            let i = choose|i: int|
                0 <= i < n && inputs[i].tab_idx == tab && #[trigger] pane_result(inputs[i]).bell;
            if i < n - 1 {
                assert(bell_rang(inputs, tab, (n - 1) as nat));
            }
        }
        if bell_rang(inputs, tab, n) && !bell_rang(inputs, tab, (n - 1) as nat) {
            assert(pane_result(inputs[n - 1]).bell);
        }
    }
}

/// The work that the first `n` panes of `inputs` deferred, pane by pane.
pub open spec fn deferred_upto(inputs: Seq<PaneInput>, n: nat) -> Seq<DeferredModel>
    decreases n,
{
    if n == 0 {
        Seq::empty()
    } else {
        deferred_upto(inputs, (n - 1) as nat) + pane_result(inputs[n - 1]).deferred
    }
}

/// Every pane drained, with its deferred work moved to `deferred`.
pub struct DrainPlan {
    pub panes: Vec<PaneDrain>,
    pub deferred: Vec<Deferred>,
}

/// Drains the panes of `inputs` in order, at time `now` (milliseconds):
/// each pane as `drain_pane` does, their deferred work gathered in pane
/// order, and the bell of every tab with a ringing pane rung once, at
/// `now`, however many of its panes rang; other tabs' bells are left alone.
pub fn drain_all(inputs: Vec<PaneInput>, bells: &mut Vec<BellState>, now: u64) -> (plan: DrainPlan)
    requires
        now <= u64::MAX - BELL_COOLDOWN_MS,
        forall|i: int| 0 <= i < inputs@.len() ==> #[trigger] inputs@[i].tab_idx < old(bells)@.len(),
    ensures
        plan.panes@.len() == inputs@.len(),
        forall|i: int|
            0 <= i < inputs@.len() ==> #[trigger] plan.panes@[i]@ == (PaneDrainModel {
                deferred: Seq::empty(),
                ..pane_result(inputs@[i])
            }),
        deferred_view(plan.deferred@) == deferred_upto(inputs@, inputs@.len()),
        final(bells)@.len() == old(bells)@.len(),
        forall|t: int|
            0 <= t < old(bells)@.len() ==> #[trigger] final(bells)@[t] == if bell_rang(
                inputs@,
                t as nat,
                inputs@.len(),
            ) {
                bell_after(old(bells)@[t], now)
            } else {
                old(bells)@[t]
            },
{
    let ghost ins = inputs@;
    let ghost nb = bells@.len();
    let mut rang: Vec<bool> = Vec::new();
    let mut t: usize = 0;
    while t < bells.len()
        invariant
            t <= bells@.len(),
            rang@.len() == t,
            forall|k: int| 0 <= k < t ==> !#[trigger] rang@[k],
        decreases bells@.len() - t,
    {
        rang.push(false);
        t = t + 1;
    }
    let mut rest = inputs;
    let mut panes: Vec<PaneDrain> = Vec::new();
    let mut deferred: Vec<Deferred> = Vec::new();
    let ghost mut done: nat = 0;
    assert(rest@ =~= ins.skip(0));
    assert(deferred_view(deferred@) =~= Seq::<DeferredModel>::empty());
    while rest.len() > 0
        invariant
            done <= ins.len(),
            rest@ == ins.skip(done as int),
            rang@.len() == nb,
            nb == bells@.len(),
            forall|i: int| 0 <= i < ins.len() ==> #[trigger] ins[i].tab_idx < nb,
            forall|k: int| 0 <= k < nb ==> #[trigger] rang@[k] == bell_rang(ins, k as nat, done),
            panes@.len() == done,
            forall|i: int|
                0 <= i < done ==> #[trigger] panes@[i]@ == (PaneDrainModel {
                    deferred: Seq::empty(),
                    ..pane_result(ins[i])
                }),
            deferred_view(deferred@) == deferred_upto(ins, done),
        decreases rest.len(),
    {
        let ghost old_rest = rest@;
        let input = rest.remove(0);
        proof {
            assert(ins.skip(done as int)[0] == ins[done as int]);
            assert(rest@ =~= ins.skip(done as int + 1));
        }
        let ghost r = pane_result(input);
        let ghost old_rang = rang@;
        let ghost old_deferred = deferred_view(deferred@);
        let PaneInput { tab_idx, pane_id, effects, scroll_offset, current_sb } = input;
        let mut d = drain_pane(effects, tab_idx, pane_id, scroll_offset, current_sb);
        if d.bell {
            rang.set(tab_idx, true);
        }
        let mut taken: Vec<Deferred> = Vec::new();
        std::mem::swap(&mut taken, &mut d.deferred);
        let ghost taken_view = deferred_view(taken@);
        deferred.append(&mut taken);
        proof {
            assert(taken_view == r.deferred);
            assert(deferred_view(deferred@) =~= old_deferred + taken_view);
            assert forall|k: int| 0 <= k < nb implies #[trigger] rang@[k] == bell_rang(
                ins,
                k as nat,
                done + 1,
            ) by {
                assert(old_rang[k] == bell_rang(ins, k as nat, done));
            }
            assert(d@ =~= PaneDrainModel { deferred: Seq::empty(), ..r });
        }
        panes.push(d);
        proof {
            done = done + 1;
        }
    }
    assert(ins.skip(done as int).len() == 0);
    let ghost old_bells = bells@;
    let mut t: usize = 0;
    while t < bells.len()
        invariant
            t <= bells@.len(),
            bells@.len() == nb,
            rang@.len() == nb,
            now <= u64::MAX - BELL_COOLDOWN_MS,
            forall|k: int| 0 <= k < nb ==> #[trigger] rang@[k] == bell_rang(ins, k as nat, ins.len()),
            forall|k: int|
                0 <= k < t ==> #[trigger] bells@[k] == if rang@[k] {
                    bell_after(old_bells[k], now)
                } else {
                    old_bells[k]
                },
            forall|k: int| t <= k < nb ==> #[trigger] bells@[k] == old_bells[k],
        decreases bells@.len() - t,
    {
        if rang[t] {
            let mut b = bells[t];
            trigger_bell(&mut b, now);
            bells.set(t, b);
        }
        t = t + 1;
    }
    DrainPlan { panes, deferred }
}

/// Ringing a bell twice at the same time is ringing it once.
pub proof fn lemma_bell_once_per_instant(b: BellState, now: u64)
    requires
        now <= u64::MAX - BELL_COOLDOWN_MS,
    ensures
        bell_after(bell_after(b, now), now) == bell_after(b, now),
{
}

/// One step of carrying out the work deferred while draining, in order.
pub enum SettleAction {
    /// Put this text on the system clipboard.
    SetClipboard(String),
    /// Answer the clipboard query of pane `pane_id` in tab `tab_idx` with
    /// an OSC 52 reply of what the system clipboard holds at this point.
    AnswerClipboard { tab_idx: usize, pane_id: usize },
    /// Write this reply to the pty of pane `pane_id` in tab `tab_idx`.
    Reply { tab_idx: usize, pane_id: usize, reply: String },
    /// The pty of pane `pane_id` in tab `tab_idx` disconnected.
    Exit { tab_idx: usize, pane_id: usize },
}

pub enum SettleActionModel {
    SetClipboard(Seq<char>),
    AnswerClipboard { tab_idx: nat, pane_id: nat },
    Reply { tab_idx: nat, pane_id: nat, reply: Seq<char> },
    Exit { tab_idx: nat, pane_id: nat },
}

impl View for SettleAction {
    type V = SettleActionModel;

    open spec fn view(&self) -> SettleActionModel {
        match self {
            SettleAction::SetClipboard(t) => SettleActionModel::SetClipboard(t@),
            SettleAction::AnswerClipboard { tab_idx, pane_id } => SettleActionModel::AnswerClipboard {
                tab_idx: *tab_idx as nat,
                pane_id: *pane_id as nat,
            },
            SettleAction::Reply { tab_idx, pane_id, reply } => SettleActionModel::Reply {
                tab_idx: *tab_idx as nat,
                pane_id: *pane_id as nat,
                reply: reply@,
            },
            SettleAction::Exit { tab_idx, pane_id } => SettleActionModel::Exit {
                tab_idx: *tab_idx as nat,
                pane_id: *pane_id as nat,
            },
        }
    }
}

pub open spec fn actions_view(v: Seq<SettleAction>) -> Seq<SettleActionModel> {
    v.map_values(|a: SettleAction| a@)
}

/// What one deferred item `d` asks for, with or without a system
/// clipboard: a clipboard write is dropped when there is none; a query is
/// answered from the clipboard when there is one, with an empty text
/// otherwise; a disconnect marks the pane as exited.
pub open spec fn settle_item(d: DeferredModel, clipboard_available: bool) -> Seq<SettleActionModel> {
    match d.kind {
        DeferredKindModel::ClipboardWrite(t) => if clipboard_available {
            seq![SettleActionModel::SetClipboard(t)]
        } else {
            Seq::empty()
        },
        DeferredKindModel::ClipboardRead => if clipboard_available {
            seq![SettleActionModel::AnswerClipboard { tab_idx: d.tab_idx, pane_id: d.pane_id }]
        } else {
            seq![
                SettleActionModel::Reply {
                    tab_idx: d.tab_idx,
                    pane_id: d.pane_id,
                    reply: osc52_text(base64_standard(Seq::empty())),
                },
            ]
        },
        DeferredKindModel::Disconnected => seq![
            SettleActionModel::Exit { tab_idx: d.tab_idx, pane_id: d.pane_id },
        ],
    }
}

/// The steps for the deferred items `ds`, in their order.
pub open spec fn settle_plan(ds: Seq<DeferredModel>, clipboard_available: bool) -> Seq<
    SettleActionModel,
>
    decreases ds.len(),
{
    if ds.len() == 0 {
        Seq::empty()
    } else {
        settle_plan(ds.drop_last(), clipboard_available) + settle_item(ds.last(), clipboard_available)
    }
}

/// Plans the work deferred while draining, in order, for a session that
/// has a system clipboard (`clipboard_available`) or not.
pub fn settle_deferred(deferred: Vec<Deferred>, clipboard_available: bool) -> (actions: Vec<
    SettleAction,
>)
    ensures
        actions_view(actions@) == settle_plan(deferred_view(deferred@), clipboard_available),
{
    let ghost all = deferred_view(deferred@);
    let mut rest = deferred;
    let mut actions: Vec<SettleAction> = Vec::new();
    let ghost mut done: nat = 0;
    assert(all.take(0) =~= Seq::<DeferredModel>::empty());
    assert(deferred_view(rest@) =~= all.skip(0));
    assert(actions_view(actions@) =~= Seq::<SettleActionModel>::empty());
    while rest.len() > 0
        invariant
            done <= all.len(),
            deferred_view(rest@) == all.skip(done as int),
            actions_view(actions@) == settle_plan(all.take(done as int), clipboard_available),
        decreases rest.len(),
    {
        let ghost old_rest = rest@;
        let ghost before = actions_view(actions@);
        let d = rest.remove(0);
        let ghost dv = d@;
        proof {
            assert(deferred_view(old_rest).len() == old_rest.len());
            assert(done < all.len());
            assert(deferred_view(old_rest)[0] == dv);
            assert(all.skip(done as int)[0] == all[done as int]);
            assert(all.take(done as int + 1).drop_last() =~= all.take(done as int));
            assert(all.take(done as int + 1).last() == dv);
            assert(rest@ =~= old_rest.skip(1));
            assert forall|i: int| 0 <= i < rest@.len() implies deferred_view(rest@)[i] == all.skip(
                done as int + 1,
            )[i] by {
                assert(deferred_view(rest@)[i] == old_rest[i + 1]@);
                assert(deferred_view(old_rest)[i + 1] == all.skip(done as int)[i + 1]);
            }
            assert(deferred_view(rest@) =~= all.skip(done as int + 1));
        }
        let Deferred { tab_idx, pane_id, kind } = d;
        match kind {
            DeferredKind::ClipboardWrite(t) => {
                if clipboard_available {
                    actions.push(SettleAction::SetClipboard(t));
                }
            },
            DeferredKind::ClipboardRead => {
                if clipboard_available {
                    actions.push(SettleAction::AnswerClipboard { tab_idx, pane_id });
                } else {
                    let empty = String::new();
                    let text = empty.as_str();
                    let reply = clipboard_response(text);
                    proof {
                        assert(text@ =~= Seq::<char>::empty());
                        assert(text.spec_bytes() =~= Seq::<u8>::empty());
                    }
                    actions.push(SettleAction::Reply { tab_idx, pane_id, reply });
                }
            },
            DeferredKind::Disconnected => {
                actions.push(SettleAction::Exit { tab_idx, pane_id });
            },
        }
        assert(actions_view(actions@) =~= before + settle_item(dv, clipboard_available));
        proof {
            done = done + 1;
        }
    }
    proof {
        assert(all.take(done as int) =~= all);
    }
    actions
}

} // verus!
