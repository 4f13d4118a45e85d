//! The action execution engine: a command-driven scheduler.
//!
//! The engine holds exactly one active specification. On each polling
//! tick it advances that specification by at most one externally visible
//! effect, emitting the device operations the host must perform. Time
//! comes in as a monotonic millisecond reading taken by the caller; the
//! engine itself does no I/O and never blocks.

use vstd::prelude::*;
use crate::protocol::{Message, MessageV};
use crate::actions::{Actions, ActionV};
use crate::keycodes::is_stored_key;

verus! {

/// A mouse button the virtual device can click.
#[derive(Debug, Clone, Copy, PartialEq, Eq, Structural)]
pub enum MouseButton {
    Left,
    Right,
    Middle,
}

/// One operation the engine asks the virtual device layer to perform,
/// in order. `SleepMs` separates the two clicks of a double click.
#[derive(Debug, Clone, PartialEq)]
pub enum DeviceOp {
    PressKey(String),
    ReleaseKey(String),
    MoveMouse(Option<i32>, Option<i32>),
    ClickButton(MouseButton),
    SleepMs(u64),
}

/// The mathematical shape of one device operation.
pub enum OpV {
    PressKey(Seq<char>),
    ReleaseKey(Seq<char>),
    MoveMouse(Option<int>, Option<int>),
    ClickButton(MouseButton),
    SleepMs(int),
}

impl View for DeviceOp {
    type V = OpV;

    open spec fn view(&self) -> OpV {
        match self {
            DeviceOp::PressKey(k) => OpV::PressKey(k@),
            DeviceOp::ReleaseKey(k) => OpV::ReleaseKey(k@),
            DeviceOp::MoveMouse(x, y) => OpV::MoveMouse(
                crate::protocol::opt_i32_view(*x),
                crate::protocol::opt_i32_view(*y),
            ),
            DeviceOp::ClickButton(b) => OpV::ClickButton(*b),
            DeviceOp::SleepMs(n) => OpV::SleepMs(*n as int),
        }
    }
}

/// The engine's whole state, mathematically.
#[verifier::ext_equal]
pub struct EngineV {
    pub active: MessageV,
    pub cycles: int,
    pub last_action_ms: int,
    pub last_cycle_start_ms: int,
    pub cursor: int,
    pub held: Seq<Seq<char>>,
    pub in_hold: bool,
    pub pending_delay: Option<int>,
    pub mouse_extra_delay: int,
    pub keyboard_extra_delay: int,
}

/// The engine. One instance lives for the whole process; a single
/// worker drives it, so no locking is needed inside.
pub struct Engine {
    active: Message,
    cycles: u64,
    last_action_ms: u64,
    last_cycle_start_ms: u64,
    cursor: usize,
    held: Vec<String>,
    in_hold: bool,
    pending_delay: Option<i64>,
    mouse_extra_delay: u64,
    keyboard_extra_delay: u64,
}

impl View for Engine {
    type V = EngineV;

    closed spec fn view(&self) -> EngineV {
        EngineV {
            active: self.active@,
            cycles: self.cycles as int,
            last_action_ms: self.last_action_ms as int,
            last_cycle_start_ms: self.last_cycle_start_ms as int,
            cursor: self.cursor as int,
            held: self.held@.map_values(|k: String| k@),
            in_hold: self.in_hold,
            pending_delay: match self.pending_delay {
                Some(d) => Some(d as int),
                None => None,
            },
            mouse_extra_delay: self.mouse_extra_delay as int,
            keyboard_extra_delay: self.keyboard_extra_delay as int,
        }
    }
}

/// A message the engine can make active: one of the three requests.
pub open spec fn is_request(m: MessageV) -> bool {
    m is StopClicking || m is RepeatingMouseClick || m is RepeatingKeyboardClick
}

/// No key is held twice.
pub open spec fn no_dup(held: Seq<Seq<char>>) -> bool {
    forall|i: int, j: int| 0 <= i < j < held.len() ==> held[i] != held[j]
}

/// The engine's internal invariant.
pub open spec fn wf_engine(e: EngineV) -> bool {
    &&& is_request(e.active)
    &&& crate::protocol::wf_msg(e.active)
    &&& no_dup(e.held)
    &&& match e.active {
        MessageV::RepeatingKeyboardClick { buttons, .. } => {
            &&& (e.cursor < buttons.len() || (buttons.len() == 0 && e.cursor == 0))
            &&& (e.in_hold ==> e.cursor < buttons.len())
        },
        _ => true,
    }
    &&& 0 <= e.cycles <= u64::MAX
}

/// The button named by a request's button field, if any.
pub open spec fn button_of(s: Seq<char>) -> Option<MouseButton> {
    if s == "left"@ {
        Some(MouseButton::Left)
    } else if s == "right"@ {
        Some(MouseButton::Right)
    } else if s == "middle"@ {
        Some(MouseButton::Middle)
    } else {
        None
    }
}

/// The click operations of one mouse repetition: an optional absolute
/// move, one click, and for a double click a short fixed pause and a
/// second click. An unrecognized button clicks nothing (the move still
/// happens), exactly as the device layer would refuse it.
pub open spec fn mouse_ops(
    button: Seq<char>,
    typ: Seq<char>,
    position: (Option<int>, Option<int>),
) -> Seq<OpV> {
    let mv: Seq<OpV> = if position.0 is Some || position.1 is Some {
        seq![OpV::MoveMouse(position.0, position.1)]
    } else {
        Seq::empty()
    };
    match button_of(button) {
        None => mv,
        Some(b) => if typ == "double"@ {
            mv + seq![OpV::ClickButton(b), OpV::SleepMs(50), OpV::ClickButton(b)]
        } else {
            mv + seq![OpV::ClickButton(b)]
        },
    }
}

/// A counter that cannot pass the machine's ceiling.
pub open spec fn bump(n: int) -> int {
    if n < u64::MAX {
        n + 1
    } else {
        n
    }
}

/// Removes the first occurrence of `k`.
pub open spec fn remove_key(held: Seq<Seq<char>>, k: Seq<char>) -> Seq<Seq<char>>
    decreases held.len(),
{
    if held.len() == 0 {
        held
    } else if held[0] == k {
        held.skip(1)
    } else {
        seq![held[0]] + remove_key(held.skip(1), k)
    }
}

/// Releasing every held key, in order.
pub open spec fn release_ops(held: Seq<Seq<char>>) -> Seq<OpV> {
    held.map_values(|k: Seq<char>| OpV::ReleaseKey(k))
}

/// What one tick does: the state after it and the device operations it
/// emits, in order. This is the engine's step function, written out.
pub open spec fn tick_spec(pre: EngineV, now: int) -> (EngineV, Seq<OpV>) {
    match pre.active {
        MessageV::StopClicking => {
            (
                EngineV {
                    held: Seq::empty(),
                    in_hold: false,
                    pending_delay: None,
                    ..pre
                },
                release_ops(pre.held),
            )
        },
        MessageV::RepeatingMouseClick { button, typ, amount, position, interval } => {
            if amount != 0 && pre.cycles >= amount {
                (pre, Seq::empty())
            } else if now - pre.last_action_ms >= interval + pre.mouse_extra_delay {
                (
                    EngineV { last_action_ms: now, cycles: bump(pre.cycles), ..pre },
                    mouse_ops(button, typ, position),
                )
            } else {
                (pre, Seq::empty())
            }
        },
        MessageV::RepeatingKeyboardClick {
            buttons,
            amount,
            interval,
            delay_before_repeat,
            hold_duration,
        } => {
            if amount != 0 && pre.cycles >= amount {
                (pre, Seq::empty())
            } else if buttons.len() == 0 {
                (pre, Seq::empty())
            } else if pre.cursor == 0 && now - pre.last_cycle_start_ms < delay_before_repeat {
                (pre, Seq::empty())
            } else if pre.in_hold {
                if now - pre.last_action_ms >= hold_duration {
                    let wrapped = pre.cursor + 1 == buttons.len();
                    let stepped = EngineV {
                        in_hold: false,
                        cursor: if wrapped { 0 } else { pre.cursor + 1 },
                        last_cycle_start_ms: if wrapped { now } else { pre.last_cycle_start_ms },
                        cycles: if wrapped { bump(pre.cycles) } else { pre.cycles },
                        last_action_ms: now,
                        ..pre
                    };
                    match buttons[pre.cursor] {
                        ActionV::PressAndRelease(k) => (
                            EngineV { held: remove_key(pre.held, k), ..stepped },
                            seq![OpV::ReleaseKey(k)],
                        ),
                        _ => (stepped, Seq::empty()),
                    }
                } else {
                    (pre, Seq::empty())
                }
            } else {
                match pre.pending_delay {
                    Some(d) => {
                        if now - pre.last_action_ms >= (if d < 0 { 0 } else { d }) {
                            (EngineV { pending_delay: None, ..pre }, Seq::empty())
                        } else {
                            (pre, Seq::empty())
                        }
                    },
                    None => {
                        if now - pre.last_action_ms >= interval + pre.keyboard_extra_delay {
                            let wrapped = pre.cursor + 1 == buttons.len();
                            let stepped = EngineV {
                                cursor: if wrapped { 0 } else { pre.cursor + 1 },
                                last_cycle_start_ms: if wrapped {
                                    now
                                } else {
                                    pre.last_cycle_start_ms
                                },
                                cycles: if wrapped { bump(pre.cycles) } else { pre.cycles },
                                last_action_ms: now,
                                ..pre
                            };
                            match buttons[pre.cursor] {
                                ActionV::PressAndRelease(k) => {
                                    if is_stored_key(k) {
                                        (
                                            EngineV {
                                                held: if pre.held.contains(k) {
                                                    pre.held
                                                } else {
                                                    pre.held.push(k)
                                                },
                                                in_hold: true,
                                                last_action_ms: now,
                                                ..pre
                                            },
                                            seq![OpV::PressKey(k)],
                                        )
                                    } else {
                                        (pre, Seq::empty())
                                    }
                                },
                                ActionV::Press(k) => {
                                    if is_stored_key(k) {
                                        (
                                            EngineV {
                                                held: if pre.held.contains(k) {
                                                    stepped.held
                                                } else {
                                                    stepped.held.push(k)
                                                },
                                                ..stepped
                                            },
                                            seq![OpV::PressKey(k)],
                                        )
                                    } else {
                                        (pre, Seq::empty())
                                    }
                                },
                                ActionV::Release(k) => {
                                    if is_stored_key(k) {
                                        (
                                            EngineV { held: remove_key(pre.held, k), ..stepped },
                                            seq![OpV::ReleaseKey(k)],
                                        )
                                    } else {
                                        (pre, Seq::empty())
                                    }
                                },
                                ActionV::Delay(d) => (
                                    EngineV { pending_delay: Some(d), ..stepped },
                                    Seq::empty(),
                                ),
                            }
                        } else {
                            (pre, Seq::empty())
                        }
                    },
                }
            }
        },
        _ => (pre, Seq::empty()),
    }
}

} // verus!

// ---------------------------------------------------------------------------
// The engine, executable.
// ---------------------------------------------------------------------------

verus! {

pub open spec fn ops_view(l: Seq<DeviceOp>) -> Seq<OpV> {
    l.map_values(|o: DeviceOp| o@)
}

pub open spec fn held_view(l: Seq<String>) -> Seq<Seq<char>> {
    l.map_values(|k: String| k@)
}

/// Is `k` among the held keys?
fn held_contains(held: &Vec<String>, k: &String) -> (r: bool)
    ensures
        r == held_view(held@).contains(k@),
{
    let ghost hv = held_view(held@);
    let mut i: usize = 0;
    while i < held.len()
        invariant
            i <= held@.len(),
            hv == held_view(held@),
            forall|j: int| 0 <= j < i ==> hv[j] != k@,
        decreases held@.len() - i,
    {
        if held[i] == *k {
            proof {
                assert(hv[i as int] == k@);
            }
            return true;
        }
        proof {
            assert(hv[i as int] == held@[i as int]@);
        }
        i += 1;
    }
    proof {
        if hv.contains(k@) {
            let w = choose|w: int| 0 <= w < hv.len() && hv[w] == k@;
            assert(hv[w] != k@);
        }
    }
    false
}

/// Dropping the first element keeps every key distinct.
proof fn lemma_no_dup_skip(held: Seq<Seq<char>>)
    requires
        no_dup(held),
        held.len() > 0,
    ensures
        no_dup(held.skip(1)),
{
    assert forall|i: int, j: int| 0 <= i < j < held.skip(1).len()
        implies held.skip(1)[i] != held.skip(1)[j] by {
        assert(held.skip(1)[i] == held[i + 1]);
        assert(held.skip(1)[j] == held[j + 1]);
    };
}

/// Everything left after a removal was held before it.
proof fn lemma_remove_key_subset(held: Seq<Seq<char>>, k: Seq<char>)
    ensures
        forall|x: Seq<char>| remove_key(held, k).contains(x) ==> held.contains(x),
    decreases held.len(),
{
    if held.len() == 0 {
    } else if held[0] == k {
        assert forall|x: Seq<char>| remove_key(held, k).contains(x) implies held.contains(x) by {
            let w = choose|w: int| 0 <= w < held.skip(1).len() && held.skip(1)[w] == x;
            assert(held[w + 1] == x);
        };
    } else {
        lemma_remove_key_subset(held.skip(1), k);
        let rk = remove_key(held.skip(1), k);
        let r = seq![held[0]] + rk;
        assert forall|x: Seq<char>| r.contains(x) implies held.contains(x) by {
            let w = choose|w: int| 0 <= w < r.len() && r[w] == x;
            if w == 0 {
                assert(held[0] == x);
            } else {
                assert(rk[w - 1] == x);
                assert(rk.contains(x));
                assert(held.skip(1).contains(x));
                let w2 = choose|w2: int| 0 <= w2 < held.skip(1).len() && held.skip(1)[w2] == x;
                assert(held[w2 + 1] == x);
            }
        };
    }
}

/// Removing the first occurrence keeps every key distinct.
proof fn lemma_remove_key_no_dup(held: Seq<Seq<char>>, k: Seq<char>)
    requires
        no_dup(held),
    ensures
        no_dup(remove_key(held, k)),
    decreases held.len(),
{
    if held.len() == 0 {
    } else if held[0] == k {
        lemma_no_dup_skip(held);
    } else {
        lemma_no_dup_skip(held);
        lemma_remove_key_no_dup(held.skip(1), k);
        lemma_remove_key_subset(held.skip(1), k);
        let rk = remove_key(held.skip(1), k);
        let r = seq![held[0]] + rk;
        assert forall|i: int, j: int| 0 <= i < j < r.len() implies r[i] != r[j] by {
            if i == 0 {
                assert(r[j] == rk[j - 1]);
                assert(rk.contains(rk[j - 1]));
                assert(held.skip(1).contains(r[j]));
                let w = choose|w: int| 0 <= w < held.skip(1).len() && held.skip(1)[w] == r[j];
                assert(held[w + 1] == r[j]);
                assert(r[0] == held[0]);
            } else {
                assert(r[i] == rk[i - 1]);
                assert(r[j] == rk[j - 1]);
            }
        };
    }
}

/// When the first occurrence of `k` stands at `i`, removing `k` removes
/// exactly that position.
proof fn lemma_remove_key_at(held: Seq<Seq<char>>, k: Seq<char>, i: int)
    requires
        0 <= i < held.len(),
        held[i] == k,
        forall|j: int| 0 <= j < i ==> held[j] != k,
    ensures
        remove_key(held, k) == held.remove(i),
    decreases i,
{
    if i == 0 {
        assert(held[0] == k);
        assert(remove_key(held, k) == held.skip(1));
        assert(held.remove(0) =~= held.skip(1));
    } else {
        assert(held[0] != k);
        assert(held.skip(1)[i - 1] == k);
        assert(forall|j: int| 0 <= j < i - 1 ==> held.skip(1)[j] == held[j + 1]);
        lemma_remove_key_at(held.skip(1), k, i - 1);
        assert(seq![held[0]] + held.skip(1).remove(i - 1) =~= held.remove(i));
    }
}

/// When `k` is not held, removing it changes nothing.
proof fn lemma_remove_key_absent(held: Seq<Seq<char>>, k: Seq<char>)
    requires
        !held.contains(k),
    ensures
        remove_key(held, k) == held,
    decreases held.len(),
{
    if held.len() > 0 {
        assert(held[0] != k);
        assert(!held.skip(1).contains(k)) by {
            if held.skip(1).contains(k) {
                let w = choose|w: int| 0 <= w < held.skip(1).len() && held.skip(1)[w] == k;
                assert(held[w + 1] == k);
            }
        };
        lemma_remove_key_absent(held.skip(1), k);
        assert(seq![held[0]] + held.skip(1) =~= held);
    }
}

/// Removes the first occurrence of `k` from the held keys.
fn held_remove(held: &mut Vec<String>, k: &String)
    ensures
        held_view(final(held)@) == remove_key(held_view(old(held)@), k@),
{
    let ghost hv = held_view(old(held)@);
    let mut i: usize = 0;
    while i < held.len()
        invariant
            i <= held@.len(),
            held@ == old(held)@,
            hv == held_view(old(held)@),
            forall|j: int| 0 <= j < i ==> hv[j] != k@,
        decreases held@.len() - i,
    {
        if held[i] == *k {
            proof {
                assert(hv[i as int] == k@);
            }
            held.remove(i);
            proof {
                lemma_remove_key_at(hv, k@, i as int);
                assert(held_view(held@) =~= hv.remove(i as int));
            }
            return;
        }
        proof {
            assert(hv[i as int] == held@[i as int]@);
        }
        i += 1;
    }
    proof {
        assert(!hv.contains(k@)) by {
            if hv.contains(k@) {
                let w = choose|w: int| 0 <= w < hv.len() && hv[w] == k@;
                assert(hv[w] != k@);
            }
        };
        lemma_remove_key_absent(hv, k@);
    }
}

impl Engine {
    /// A fresh engine: the active specification is `StopClicking`, and
    /// the given settings knobs add to every interval comparison.
    pub fn new(mouse_extra_delay: u64, keyboard_extra_delay: u64, now_ms: u64) -> (r: Engine)
        ensures
            wf_engine(r@),
            r@.active is StopClicking,
            r@.cycles == 0,
            r@.held == Seq::<Seq<char>>::empty(),
            r@.cursor == 0,
            r@.in_hold == false,
            r@.pending_delay is None,
            r@.last_action_ms == now_ms,
            r@.last_cycle_start_ms == now_ms,
            r@.mouse_extra_delay == mouse_extra_delay,
            r@.keyboard_extra_delay == keyboard_extra_delay,
    {
        let r = Engine {
            active: Message::StopClicking(crate::protocol::StopClicking {}),
            cycles: 0,
            last_action_ms: now_ms,
            last_cycle_start_ms: now_ms,
            cursor: 0,
            held: Vec::new(),
            in_hold: false,
            pending_delay: None,
            mouse_extra_delay,
            keyboard_extra_delay,
        };
        proof {
            assert(r@.held =~= Seq::<Seq<char>>::empty());
        }
        r
    }

    /// Replaces the active specification wholesale: the repetition
    /// counter, cursor and hold state start over; held keys stay held
    /// until a `StopClicking` tick releases them.
    pub fn apply_message(&mut self, msg: Message, now_ms: u64)
        requires
            wf_engine(old(self)@),
            is_request(msg@),
        ensures
            wf_engine(final(self)@),
            final(self)@ == (EngineV {
                active: msg@,
                cycles: 0,
                last_action_ms: now_ms as int,
                cursor: 0,
                in_hold: false,
                pending_delay: None,
                ..old(self)@
            }),
    {
        proof {
            crate::protocol::lemma_message_view_wf(&msg);
        }
        self.active = msg;
        self.cycles = 0;
        self.last_action_ms = now_ms;
        self.cursor = 0;
        self.in_hold = false;
        self.pending_delay = None;
        proof {
            assert(self@ =~= (EngineV {
                active: self@.active,
                cycles: 0,
                last_action_ms: now_ms as int,
                cursor: 0,
                in_hold: false,
                pending_delay: None,
                ..old(self)@
            }));
        }
    }

    /// The currently held keys, oldest first.
    pub fn held_keys(&self) -> (r: Vec<String>)
        ensures
            held_view(r@) == self@.held,
    {
        let mut r: Vec<String> = Vec::new();
        let mut i: usize = 0;
        while i < self.held.len()
            invariant
                i <= self.held@.len(),
                held_view(r@) == held_view(self.held@).take(i as int),
            decreases self.held@.len() - i,
        {
            let ghost oldr = r@;
            let y: String = String::from_str(self.held[i].as_str());
            proof {
                assert(y@ == self.held@[i as int]@);
            }
            r.push(y);
            i += 1;
            proof {
                assert(held_view(oldr).len() == oldr.len());
                assert(oldr.len() == i - 1);
                assert(r@ == oldr.push(y));
                assert(r@[i - 1] == y);
                assert(r@[i - 1]@ == self.held@[i - 1]@);
                assert(held_view(r@) =~= held_view(self.held@).take(i as int));
            }
        }
        proof {
            assert(held_view(self.held@).take(self.held@.len() as int) =~= held_view(self.held@));
        }
        r
    }

    /// How many repetition cycles the active specification has finished.
    pub fn cycles_completed(&self) -> (r: u64)
        ensures
            r == self@.cycles,
    {
        self.cycles
    }
}

} // verus!

// ---------------------------------------------------------------------------
// The tick.
// ---------------------------------------------------------------------------

verus! {

impl Engine {
    /// One polling tick at monotonic time `now_ms`: advances the active
    /// specification by at most one externally visible effect and
    /// returns the device operations to perform, in order. The whole
    /// transition is [`tick_spec`], written out.
    #[verifier::rlimit(100)]
    #[verifier::spinoff_prover]
    pub fn tick(&mut self, now_ms: u64) -> (ops: Vec<DeviceOp>)
        requires
            wf_engine(old(self)@),
            now_ms >= old(self)@.last_action_ms,
            now_ms >= old(self)@.last_cycle_start_ms,
        ensures
            wf_engine(final(self)@),
            final(self)@ == tick_spec(old(self)@, now_ms as int).0,
            ops_view(ops@) == tick_spec(old(self)@, now_ms as int).1,
    {
        let ghost pre = self@;
        let ghost target = tick_spec(pre, now_ms as int);
        let mut ops: Vec<DeviceOp> = Vec::new();
        proof {
            assert(ops_view(ops@) =~= Seq::<OpV>::empty());
        }
        match &self.active {
            Message::StopClicking(_) => {
                let mut h: usize = 0;
                while h < self.held.len()
                    invariant
                        h <= self.held@.len(),
                        held_view(self.held@) == pre.held,
                        ops_view(ops@) == release_ops(pre.held.take(h as int)),
                    decreases self.held@.len() - h,
                {
                    let ghost oldops = ops@;
                    let y = String::from_str(self.held[h].as_str());
                    proof {
                        assert(y@ == self.held@[h as int]@);
                        assert(pre.held[h as int] == self.held@[h as int]@);
                    }
                    ops.push(DeviceOp::ReleaseKey(y));
                    h += 1;
                    proof {
                        assert(ops_view(oldops).len() == oldops.len());
                        assert(ops@ == oldops.push(DeviceOp::ReleaseKey(y)));
                        assert(release_ops(pre.held.take(h - 1)).len() == h - 1);
                        assert(release_ops(pre.held.take(h as int)).len() == h as int);
                        assert(ops_view(ops@).len() == h as int);
                        assert forall|j: int| 0 <= j < h implies ops_view(ops@)[j]
                            == release_ops(pre.held.take(h as int))[j] by {
                            assert(ops_view(ops@)[j] == ops@[j]@);
                            assert(release_ops(pre.held.take(h as int))[j] == OpV::ReleaseKey(
                                pre.held.take(h as int)[j],
                            ));
                            if j < h - 1 {
                                assert(ops@[j] == oldops[j]);
                                assert(ops_view(oldops)[j] == oldops[j]@);
                                assert(release_ops(pre.held.take(h - 1))[j] == OpV::ReleaseKey(
                                    pre.held.take(h - 1)[j],
                                ));
                            } else {
                                assert(ops@[j] == DeviceOp::ReleaseKey(y));
                            }
                        };
                        assert(ops_view(ops@) =~= release_ops(pre.held.take(h as int)));
                    }
                }
                proof {
                    assert(held_view(self.held@).len() == self.held@.len());
                    assert(pre.held.take(pre.held.len() as int) =~= pre.held);
                }
                self.held = Vec::new();
                self.in_hold = false;
                self.pending_delay = None;
                proof {
                    assert(held_view(self.held@) =~= Seq::<Seq<char>>::empty());
                    assert(self@ =~= target.0);
                    assert(ops_view(ops@) =~= target.1);
                }
            },
            Message::RepeatingMouseClick(c) => {
                if c.amount != 0 && self.cycles >= c.amount {
                    proof {
                        assert(self@ =~= target.0);
                        assert(ops_view(ops@) =~= target.1);
                    }
                } else if ((now_ms - self.last_action_ms) as u128) >= (c.interval as u128)
                    + (self.mouse_extra_delay as u128) {
                    if c.position.0.is_some() || c.position.1.is_some() {
                        ops.push(DeviceOp::MoveMouse(c.position.0, c.position.1));
                    }
                    let double = crate::chars::str_eq(c.typ.as_str(), "double");
                    if crate::chars::str_eq(c.button.as_str(), "left") {
                        ops.push(DeviceOp::ClickButton(MouseButton::Left));
                        if double {
                            ops.push(DeviceOp::SleepMs(50));
                            ops.push(DeviceOp::ClickButton(MouseButton::Left));
                        }
                    } else if crate::chars::str_eq(c.button.as_str(), "right") {
                        ops.push(DeviceOp::ClickButton(MouseButton::Right));
                        if double {
                            ops.push(DeviceOp::SleepMs(50));
                            ops.push(DeviceOp::ClickButton(MouseButton::Right));
                        }
                    } else if crate::chars::str_eq(c.button.as_str(), "middle") {
                        ops.push(DeviceOp::ClickButton(MouseButton::Middle));
                        if double {
                            ops.push(DeviceOp::SleepMs(50));
                            ops.push(DeviceOp::ClickButton(MouseButton::Middle));
                        }
                    }
                    self.last_action_ms = now_ms;
                    if self.cycles < u64::MAX {
                        self.cycles = self.cycles + 1;
                    }
                    proof {
                        assert(ops_view(ops@) =~= target.1);
                        assert(self@ =~= target.0);
                    }
                } else {
                    proof {
                        assert(self@ =~= target.0);
                        assert(ops_view(ops@) =~= target.1);
                    }
                }
            },
            Message::RepeatingKeyboardClick(c) => {
                let ghost bs = c.buttons@.map_values(|a: Actions| a@);
                proof {
                    assert(bs.len() == c.buttons@.len());
                }
                if c.amount != 0 && self.cycles >= c.amount {
                    proof {
                        assert(self@ =~= target.0);
                        assert(ops_view(ops@) =~= target.1);
                    }
                } else if c.buttons.len() == 0 {
                    proof {
                        assert(self@ =~= target.0);
                        assert(ops_view(ops@) =~= target.1);
                    }
                } else if self.cursor == 0 && ((now_ms - self.last_cycle_start_ms) as u128)
                    < (c.delay_before_repeat as u128) {
                    proof {
                        assert(self@ =~= target.0);
                        assert(ops_view(ops@) =~= target.1);
                    }
                } else if self.in_hold {
                    if ((now_ms - self.last_action_ms) as u128) >= (c.hold_duration as u128) {
                        proof {
                            assert(bs[pre.cursor] == c.buttons@[self.cursor as int]@);
                        }
                        let wrapped = self.cursor + 1 == c.buttons.len();
                        match &c.buttons[self.cursor] {
                            Actions::PressAndRelease(k) => {
                                let y = String::from_str(k.as_str());
                                ops.push(DeviceOp::ReleaseKey(y));
                                let k2 = String::from_str(k.as_str());
                                held_remove(&mut self.held, &k2);
                            },
                            _ => {},
                        }
                        self.in_hold = false;
                        if wrapped {
                            self.cursor = 0;
                            self.last_cycle_start_ms = now_ms;
                            if self.cycles < u64::MAX {
                                self.cycles = self.cycles + 1;
                            }
                        } else {
                            self.cursor = self.cursor + 1;
                        }
                        self.last_action_ms = now_ms;
                        proof {
                            lemma_remove_key_no_dup(pre.held, match bs[pre.cursor] {
                                ActionV::PressAndRelease(kk) => kk,
                                _ => Seq::empty(),
                            });
                            assert(self@ =~= target.0);
                            assert(ops_view(ops@) =~= target.1);
                        }
                    } else {
                        proof {
                            assert(self@ =~= target.0);
                            assert(ops_view(ops@) =~= target.1);
                        }
                    }
                } else {
                    match self.pending_delay {
                        Some(d) => {
                            let d_eff: u64 = if d < 0 {
                                0
                            } else {
                                d as u64
                            };
                            if now_ms - self.last_action_ms >= d_eff {
                                self.pending_delay = None;
                            }
                            proof {
                                assert(self@ =~= target.0);
                                assert(ops_view(ops@) =~= target.1);
                            }
                        },
                        None => {
                            if ((now_ms - self.last_action_ms) as u128) >= (c.interval as u128)
                                + (self.keyboard_extra_delay as u128) {
                                proof {
                                    assert(bs[pre.cursor] == c.buttons@[self.cursor as int]@);
                                }
                                let wrapped = self.cursor + 1 == c.buttons.len();
                                let mut advance = true;
                                match &c.buttons[self.cursor] {
                                    Actions::PressAndRelease(k) => {
                                        advance = false;
                                        if crate::keycodes::is_valid_stored_key(k.as_str()) {
                                            self.last_action_ms = now_ms;
                                            let y = String::from_str(k.as_str());
                                            ops.push(DeviceOp::PressKey(y));
                                            let k2 = String::from_str(k.as_str());
                                            if !held_contains(&self.held, &k2) {
                                                self.held.push(k2);
                                                proof {
                                                    assert(held_view(self.held@)
                                                        =~= pre.held.push(k2@));
                                                    assert(no_dup(pre.held.push(k2@))) by {
                                                        assert(forall|j: int|
                                                            0 <= j < pre.held.len()
                                                            ==> pre.held.push(k2@)[j]
                                                                == pre.held[j]);
                                                    };
                                                }
                                            }
                                            self.in_hold = true;
                                        }
                                        proof {
                                            assert(self@ =~= target.0);
                                            assert(ops_view(ops@) =~= target.1);
                                        }
                                    },
                                    Actions::Press(k) => {
                                        if crate::keycodes::is_valid_stored_key(k.as_str()) {
                                            let y = String::from_str(k.as_str());
                                            ops.push(DeviceOp::PressKey(y));
                                            let k2 = String::from_str(k.as_str());
                                            if !held_contains(&self.held, &k2) {
                                                self.held.push(k2);
                                                proof {
                                                    assert(held_view(self.held@)
                                                        =~= pre.held.push(k2@));
                                                    assert(no_dup(pre.held.push(k2@))) by {
                                                        assert(forall|j: int|
                                                            0 <= j < pre.held.len()
                                                            ==> pre.held.push(k2@)[j]
                                                                == pre.held[j]);
                                                    };
                                                }
                                            }
                                        } else {
                                            advance = false;
                                        }
                                    },
                                    Actions::Release(k) => {
                                        if crate::keycodes::is_valid_stored_key(k.as_str()) {
                                            let y = String::from_str(k.as_str());
                                            ops.push(DeviceOp::ReleaseKey(y));
                                            let k2 = String::from_str(k.as_str());
                                            held_remove(&mut self.held, &k2);
                                            proof {
                                                lemma_remove_key_no_dup(pre.held, k2@);
                                            }
                                        } else {
                                            advance = false;
                                        }
                                    },
                                    Actions::Delay(d) => {
                                        self.pending_delay = Some(*d);
                                    },
                                }
                                if advance {
                                    self.in_hold = false;
                                    if wrapped {
                                        self.cursor = 0;
                                        self.last_cycle_start_ms = now_ms;
                                        if self.cycles < u64::MAX {
                                            self.cycles = self.cycles + 1;
                                        }
                                    } else {
                                        self.cursor = self.cursor + 1;
                                    }
                                    self.last_action_ms = now_ms;
                                }
                                proof {
                                    assert(self@ =~= target.0);
                                    assert(ops_view(ops@) =~= target.1);
                                }
                            } else {
                                proof {
                                    assert(self@ =~= target.0);
                                    assert(ops_view(ops@) =~= target.1);
                                }
                            }
                        },
                    }
                }
            },
            _ => {
                proof {
                    assert(false);
                }
            },
        }
        ops
    }
}

} // verus!

// ---------------------------------------------------------------------------
// Laws of the engine.
// ---------------------------------------------------------------------------

verus! {

/// A key every element differs from is gone entirely after removal.
proof fn lemma_remove_key_removes(held: Seq<Seq<char>>, k: Seq<char>)
    requires
        no_dup(held),
    ensures
        !remove_key(held, k).contains(k),
    decreases held.len(),
{
    if held.len() == 0 {
    } else if held[0] == k {
        if held.skip(1).contains(k) {
            let w = choose|w: int| 0 <= w < held.skip(1).len() && held.skip(1)[w] == k;
            assert(held[w + 1] == k);
            assert(held[0] == held[w + 1]);
        }
    } else {
        lemma_no_dup_skip(held);
        lemma_remove_key_no_dup(held.skip(1), k);
        lemma_remove_key_removes(held.skip(1), k);
        let r = seq![held[0]] + remove_key(held.skip(1), k);
        if r.contains(k) {
            let w = choose|w: int| 0 <= w < r.len() && r[w] == k;
            if w == 0 {
                assert(held[0] == k);
            } else {
                assert(remove_key(held.skip(1), k)[w - 1] == k);
                assert(remove_key(held.skip(1), k).contains(k));
            }
        }
    }
}

/// A bounded mouse specification performs exactly its amount of
/// repetitions. Once the completed count has reached the bound, a tick
/// emits nothing and changes nothing, however much time has passed —
/// only a replacement specification can start clicks again. And every
/// tick that emits anything counts: it happens only below the bound and
/// raises the completed count by exactly one. Together: exactly
/// `amount` clicking ticks, then idleness.
pub proof fn lemma_mouse_amount_caps(e: EngineV, now: int)
    requires
        wf_engine(e),
        e.active is RepeatingMouseClick,
    ensures
        (match e.active {
            MessageV::RepeatingMouseClick { amount, .. } => amount != 0 && e.cycles >= amount,
            _ => false,
        }) ==> tick_spec(e, now) == (e, Seq::<OpV>::empty()),
        tick_spec(e, now).1.len() > 0 ==> (match e.active {
            MessageV::RepeatingMouseClick { amount, .. } => {
                &&& tick_spec(e, now).0.cycles == bump(e.cycles)
                &&& (amount != 0 ==> e.cycles < amount
                    && tick_spec(e, now).0.cycles == e.cycles + 1)
            },
            _ => false,
        }),
{
    match e.active {
        MessageV::RepeatingMouseClick { button, typ, amount, position, interval } => {
            if tick_spec(e, now).1.len() > 0 {
                assert(e.cycles < u64::MAX || amount == 0 || e.cycles < amount);
                if amount != 0 && e.cycles >= amount {
                    assert(tick_spec(e, now).1.len() == 0);
                }
            }
        },
        _ => {},
    }
}

/// Sending `StopClicking` while keys are held releases every held key
/// exactly once: the tick emits one release per held key, in order, no
/// two alike, and afterwards the set of held keys is empty.
pub proof fn lemma_stop_releases_all(e: EngineV, now: int)
    requires
        wf_engine(e),
        e.active is StopClicking,
    ensures
        tick_spec(e, now).0.held.len() == 0,
        tick_spec(e, now).1.len() == e.held.len(),
        forall|i: int| 0 <= i < e.held.len()
            ==> tick_spec(e, now).1[i] == OpV::ReleaseKey(e.held[i]),
        forall|i: int, j: int| 0 <= i < j < e.held.len()
            ==> tick_spec(e, now).1[i] != tick_spec(e, now).1[j],
{
    let ops = tick_spec(e, now).1;
    assert(ops == release_ops(e.held));
    assert(release_ops(e.held).len() == e.held.len());
    assert forall|i: int| 0 <= i < e.held.len()
        implies ops[i] == OpV::ReleaseKey(e.held[i]) by {
        assert(release_ops(e.held)[i] == OpV::ReleaseKey(e.held[i]));
    };
}

/// The hold discipline of the sequence `Press(k)`, `Delay(d)`,
/// `Release(k)`: the press puts `k` among the held keys and moves on;
/// the delay step arms a pending delay of `d` milliseconds without
/// touching the device; while that delay has not elapsed a tick does
/// nothing at all, so `k` stays held; the delay is cleared exactly when
/// `d` milliseconds have passed since the delay step ran; and `k`
/// leaves the held keys exactly when the release step executes.
pub proof fn lemma_press_delay_release(
    e: EngineV,
    now: int,
    k: Seq<char>,
    d: int,
    amount: int,
    interval: int,
    dbr: int,
    hold: int,
)
    requires
        wf_engine(e),
        d >= 0,
        crate::keycodes::is_stored_key(k),
        e.active == (MessageV::RepeatingKeyboardClick {
            buttons: seq![ActionV::Press(k), ActionV::Delay(d), ActionV::Release(k)],
            amount: amount,
            interval: interval,
            delay_before_repeat: dbr,
            hold_duration: hold,
        }),
        amount == 0 || e.cycles < amount,
    ensures
        (e.cursor == 0 && !e.in_hold && e.pending_delay is None
            && now - e.last_cycle_start_ms >= dbr
            && now - e.last_action_ms >= interval + e.keyboard_extra_delay)
            ==> tick_spec(e, now).1 == seq![OpV::PressKey(k)]
                && tick_spec(e, now).0.held.contains(k)
                && tick_spec(e, now).0.cursor == 1,
        (e.cursor == 1 && !e.in_hold && e.pending_delay is None
            && now - e.last_action_ms >= interval + e.keyboard_extra_delay)
            ==> tick_spec(e, now).1.len() == 0
                && tick_spec(e, now).0.pending_delay == Some(d)
                && tick_spec(e, now).0.cursor == 2
                && tick_spec(e, now).0.held == e.held,
        (e.cursor == 2 && !e.in_hold && e.pending_delay == Some(d)
            && now - e.last_action_ms < d)
            ==> tick_spec(e, now) == (e, Seq::<OpV>::empty()),
        (e.cursor == 2 && !e.in_hold && e.pending_delay == Some(d))
            ==> ((tick_spec(e, now).0.pending_delay is None) <==> now - e.last_action_ms >= d)
                && tick_spec(e, now).0.held == e.held
                && tick_spec(e, now).1.len() == 0,
        (e.cursor == 2 && !e.in_hold && e.pending_delay is None
            && now - e.last_action_ms >= interval + e.keyboard_extra_delay)
            ==> tick_spec(e, now).1 == seq![OpV::ReleaseKey(k)]
                && !tick_spec(e, now).0.held.contains(k),
{
    let bs = seq![ActionV::Press(k), ActionV::Delay(d), ActionV::Release(k)];
    assert(bs.len() == 3);
    assert(bs[0] == ActionV::Press(k));
    assert(bs[1] == ActionV::Delay(d));
    assert(bs[2] == ActionV::Release(k));
    if e.cursor == 0 && !e.in_hold && e.pending_delay is None
        && now - e.last_cycle_start_ms >= dbr
        && now - e.last_action_ms >= interval + e.keyboard_extra_delay {
        if e.held.contains(k) {
        } else {
            assert(e.held.push(k)[e.held.len() as int] == k);
        }
    }
    if e.cursor == 2 && !e.in_hold && e.pending_delay is None
        && now - e.last_action_ms >= interval + e.keyboard_extra_delay {
        lemma_remove_key_removes(e.held, k);
    }
}

} // verus!
