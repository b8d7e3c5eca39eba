//! The input-state manager: a binding table from physical key codes to
//! logical effects, a registry of tweened axes, and a registry of latched
//! buttons, together with the per-frame update protocol and the query API.
//!
//! Identifiers are plain values: a physical key is a platform key code
//! (`u64`), and logical axes and buttons are application-chosen `u64` ids.

use vstd::prelude::*;

use crate::assoc::assoc_map;
use crate::assoc::keys_unique;
use crate::assoc::lemma_assoc_contains;
use crate::assoc::lemma_assoc_index;
use crate::assoc::lemma_assoc_push;
use crate::assoc::lemma_assoc_same_keys;
use crate::assoc::lemma_assoc_update;
use crate::tween::axis_step;
use crate::tween::default_axis;
use crate::tween::lemma_step_valid;
use crate::tween::valid_axis;
use crate::tween::AxisStatus;
use crate::tween::AXIS_UNIT;

verus! {

/// A physical input event; currently only a key event with a platform key
/// code.
#[derive(Debug, PartialEq, Eq, Structural, Copy, Clone)]
pub enum InputEvent {
    KeyEvent(u64),
}

/// The logical effect a physical event is bound to: it drives an axis
/// (toward +1 when the flag is true, toward -1 when false), or it
/// presses/releases a button.
#[derive(Debug, PartialEq, Eq, Structural, Copy, Clone)]
pub enum InputEffect {
    Axis(u64, bool),
    Button(u64),
}

/// The target direction a key event sets on its bound axis: the bound sign
/// on key-down, rest on key-up.
pub open spec fn event_direction(positive: bool, started: bool) -> i64 {
    if !started {
        0
    } else if positive {
        AXIS_UNIT
    } else {
        (-AXIS_UNIT) as i64
    }
}

/// The axis registry after an axis effect fires: the axis (materialised with
/// defaults if missing) keeps its position and rates and takes the new
/// target direction.
pub open spec fn axis_with_direction(m: Map<u64, AxisStatus>, id: u64, dir: i64) -> Map<
    u64,
    AxisStatus,
> {
    let cur = if m.contains_key(id) {
        m[id]
    } else {
        default_axis()
    };
    m.insert(id, AxisStatus { direction: dir, ..cur })
}

/// The axis registry after a binding call: an unknown axis is materialised
/// at rest with default rates; a known axis keeps its state.
pub open spec fn with_axis_entry(m: Map<u64, AxisStatus>, id: u64) -> Map<u64, AxisStatus> {
    if m.contains_key(id) {
        m
    } else {
        m.insert(id, default_axis())
    }
}

/// The button registry after a binding call: an unknown button is
/// materialised unpressed; a known button keeps its state.
pub open spec fn with_button_entry(m: Map<u64, bool>, id: u64) -> Map<u64, bool> {
    if m.contains_key(id) {
        m
    } else {
        m.insert(id, false)
    }
}

/// Both registries after a key event is dispatched: an unbound or absent key
/// changes nothing; a bound key applies its effect with `started` telling
/// key-down from key-up.
pub open spec fn after_key_event(
    bindings: Map<InputEvent, InputEffect>,
    axes: Map<u64, AxisStatus>,
    buttons: Map<u64, bool>,
    keycode: Option<u64>,
    started: bool,
) -> (Map<u64, AxisStatus>, Map<u64, bool>) {
    match keycode {
        Option::None => (axes, buttons),
        Option::Some(k) => {
            let ev = InputEvent::KeyEvent(k);
            if bindings.contains_key(ev) {
                match bindings[ev] {
                    InputEffect::Axis(id, positive) => (
                        axis_with_direction(axes, id, event_direction(positive, started)),
                        buttons,
                    ),
                    InputEffect::Button(id) => (axes, buttons.insert(id, started)),
                }
            } else {
                (axes, buttons)
            }
        },
    }
}

/// The input-state manager.
#[derive(Debug)]
pub struct InputManager {
    bindings: Vec<(InputEvent, InputEffect)>,
    axes: Vec<(u64, AxisStatus)>,
    buttons: Vec<(u64, bool)>,
}

impl InputManager {
    /// The binding table: physical event to logical effect.
    pub closed spec fn binding_map(self) -> Map<InputEvent, InputEffect> {
        assoc_map(self.bindings@)
    }

    /// The axis registry: logical axis id to tween state.
    pub closed spec fn axis_map(self) -> Map<u64, AxisStatus> {
        assoc_map(self.axes@)
    }

    /// The button registry: logical button id to pressed state.
    pub closed spec fn button_map(self) -> Map<u64, bool> {
        assoc_map(self.buttons@)
    }

    /// Well-formedness: each registry holds one entry per key, and every
    /// axis state is valid.
    pub closed spec fn wf(self) -> bool {
        &&& keys_unique(self.bindings@)
        &&& keys_unique(self.axes@)
        &&& keys_unique(self.buttons@)
        &&& forall|i: int| 0 <= i < self.axes@.len() ==> valid_axis((#[trigger] self.axes@[i]).1)
    }

    /// Every axis state a well-formed manager holds is valid.
    pub proof fn lemma_wf_axes_valid(self)
        requires
            self.wf(),
        ensures
            forall|id: u64|
                #[trigger] self.axis_map().contains_key(id) ==> valid_axis(self.axis_map()[id]),
    {
        assert forall|id: u64| #[trigger]
            self.axis_map().contains_key(id) implies valid_axis(self.axis_map()[id]) by {
            lemma_assoc_contains(self.axes@, id);
            let i = choose|i: int| 0 <= i < self.axes@.len() && (#[trigger] self.axes@[i]).0 == id;
            lemma_assoc_index(self.axes@, i);
        }
    }

    /// Creates an empty manager: no bindings, no axes, no buttons.
    pub fn new() -> (r: Self)
        ensures
            r.wf(),
            r.binding_map() == Map::<InputEvent, InputEffect>::empty(),
            r.axis_map() == Map::<u64, AxisStatus>::empty(),
            r.button_map() == Map::<u64, bool>::empty(),
    {
        InputManager { bindings: Vec::new(), axes: Vec::new(), buttons: Vec::new() }
    }

    /// Index of the entry bound to `ev`, if any.
    fn find_binding(&self, ev: InputEvent) -> (r: Option<usize>)
        ensures
            match r {
                Option::Some(i) => i < self.bindings@.len() && self.bindings@[i as int].0 == ev,
                Option::None => forall|i: int|
                    0 <= i < self.bindings@.len() ==> (#[trigger] self.bindings@[i]).0 != ev,
            },
    {
        let n = self.bindings.len();
        let mut i: usize = 0;
        while i < n
            invariant
                i <= n,
                n == self.bindings@.len(),
                forall|j: int| 0 <= j < i ==> (#[trigger] self.bindings@[j]).0 != ev,
            decreases n - i,
        {
            if self.bindings[i].0 == ev {
                return Option::Some(i);
            }
            i += 1;
        }
        Option::None
    }

    /// Index of the axis entry for `id`, if any.
    fn find_axis(&self, id: u64) -> (r: Option<usize>)
        ensures
            match r {
                Option::Some(i) => i < self.axes@.len() && self.axes@[i as int].0 == id,
                Option::None => forall|i: int|
                    0 <= i < self.axes@.len() ==> (#[trigger] self.axes@[i]).0 != id,
            },
    {
        let n = self.axes.len();
        let mut i: usize = 0;
        while i < n
            invariant
                i <= n,
                n == self.axes@.len(),
                forall|j: int| 0 <= j < i ==> (#[trigger] self.axes@[j]).0 != id,
            decreases n - i,
        {
            if self.axes[i].0 == id {
                return Option::Some(i);
            }
            i += 1;
        }
        Option::None
    }

    /// Index of the button entry for `id`, if any.
    fn find_button(&self, id: u64) -> (r: Option<usize>)
        ensures
            match r {
                Option::Some(i) => i < self.buttons@.len() && self.buttons@[i as int].0 == id,
                Option::None => forall|i: int|
                    0 <= i < self.buttons@.len() ==> (#[trigger] self.buttons@[i]).0 != id,
            },
    {
        let n = self.buttons.len();
        let mut i: usize = 0;
        while i < n
            invariant
                i <= n,
                n == self.buttons@.len(),
                forall|j: int| 0 <= j < i ==> (#[trigger] self.buttons@[j]).0 != id,
            decreases n - i,
        {
            if self.buttons[i].0 == id {
                return Option::Some(i);
            }
            i += 1;
        }
        Option::None
    }

    /// Binds `ev` to `eff`, replacing any earlier binding of `ev`.
    fn put_binding(&mut self, ev: InputEvent, eff: InputEffect)
        requires
            old(self).wf(),
        ensures
            final(self).wf(),
            final(self).binding_map() == old(self).binding_map().insert(ev, eff),
            final(self).axes@ == old(self).axes@,
            final(self).buttons@ == old(self).buttons@,
    {
        match self.find_binding(ev) {
            Option::Some(i) => {
                proof {
                    lemma_assoc_update(self.bindings@, i as int, eff);
                }
                self.bindings.set(i, (ev, eff));
            },
            Option::None => {
                proof {
                    lemma_assoc_push(self.bindings@, ev, eff);
                }
                self.bindings.push((ev, eff));
            },
        }
    }

    /// Materialises the axis `id` with defaults if it is not yet known.
    fn ensure_axis(&mut self, id: u64)
        requires
            old(self).wf(),
        ensures
            final(self).wf(),
            final(self).axis_map() == with_axis_entry(old(self).axis_map(), id),
            final(self).axis_map().contains_key(id),
            final(self).bindings@ == old(self).bindings@,
            final(self).buttons@ == old(self).buttons@,
    {
        proof {
            lemma_assoc_contains(self.axes@, id);
        }
        match self.find_axis(id) {
            Option::Some(i) => {
                proof {
                    lemma_assoc_index(self.axes@, i as int);
                }
            },
            Option::None => {
                proof {
                    lemma_assoc_push(self.axes@, id, default_axis());
                }
                self.axes.push((id, AxisStatus::default()));
                proof {
                    lemma_assoc_contains(old(self).axes@, id);
                    assert(forall|i: int|
                        0 <= i < old(self).axes@.len() ==> #[trigger] self.axes@[i] == old(
                            self,
                        ).axes@[i]);
                    assert(self.axes@[self.axes@.len() - 1].1 == default_axis());
                }
            },
        }
    }

    /// Materialises the button `id` unpressed if it is not yet known.
    fn ensure_button(&mut self, id: u64)
        requires
            old(self).wf(),
        ensures
            final(self).wf(),
            final(self).button_map() == with_button_entry(old(self).button_map(), id),
            final(self).button_map().contains_key(id),
            final(self).bindings@ == old(self).bindings@,
            final(self).axes@ == old(self).axes@,
    {
        proof {
            lemma_assoc_contains(self.buttons@, id);
        }
        match self.find_button(id) {
            Option::Some(i) => {
                proof {
                    lemma_assoc_index(self.buttons@, i as int);
                }
            },
            Option::None => {
                proof {
                    lemma_assoc_push(self.buttons@, id, false);
                }
                self.buttons.push((id, false));
            },
        }
    }

    /// Adds a key binding connecting the given key code to the given logical
    /// axis, driving it toward +1 when `positive` is true and toward -1
    /// otherwise. Rebinding a key replaces its earlier effect; an unknown
    /// axis is created at rest with default rates, a known one keeps its
    /// state.
    pub fn bind_key_to_axis(self, keycode: u64, axis: u64, positive: bool) -> (r: Self)
        requires
            self.wf(),
        ensures
            r.wf(),
            r.binding_map() == self.binding_map().insert(
                InputEvent::KeyEvent(keycode),
                InputEffect::Axis(axis, positive),
            ),
            r.axis_map() == with_axis_entry(self.axis_map(), axis),
            r.button_map() == self.button_map(),
    {
        let mut m = self;
        m.put_binding(InputEvent::KeyEvent(keycode), InputEffect::Axis(axis, positive));
        m.ensure_axis(axis);
        m
    }

    /// Adds a key binding connecting the given key code to the given logical
    /// button. Rebinding a key replaces its earlier effect; an unknown
    /// button is created unpressed, a known one keeps its state.
    pub fn bind_key_to_button(self, keycode: u64, button: u64) -> (r: Self)
        requires
            self.wf(),
        ensures
            r.wf(),
            r.binding_map() == self.binding_map().insert(
                InputEvent::KeyEvent(keycode),
                InputEffect::Button(button),
            ),
            r.axis_map() == self.axis_map(),
            r.button_map() == with_button_entry(self.button_map(), button),
    {
        let mut m = self;
        m.put_binding(InputEvent::KeyEvent(keycode), InputEffect::Button(button));
        m.ensure_button(button);
        m
    }
    /// Sets the target direction of axis `id`, materialising it with
    /// defaults first if it is unknown.
    fn set_axis_direction(&mut self, id: u64, dir: i64)
        requires
            old(self).wf(),
            dir == (-AXIS_UNIT) as i64 || dir == 0 || dir == AXIS_UNIT,
        ensures
            final(self).wf(),
            final(self).axis_map() == axis_with_direction(old(self).axis_map(), id, dir),
            final(self).bindings@ == old(self).bindings@,
            final(self).buttons@ == old(self).buttons@,
    {
        proof {
            lemma_assoc_contains(self.axes@, id);
        }
        match self.find_axis(id) {
            Option::Some(i) => {
                let st = self.axes[i].1;
                proof {
                    lemma_assoc_index(self.axes@, i as int);
                    lemma_assoc_update(self.axes@, i as int, AxisStatus { direction: dir, ..st });
                }
                self.axes.set(i, (id, AxisStatus { direction: dir, ..st }));
                proof {
                    assert forall|j: int| 0 <= j < self.axes@.len() implies valid_axis(
                        (#[trigger] self.axes@[j]).1,
                    ) by {
                        assert(j != i ==> self.axes@[j] == old(self).axes@[j]);
                    }
                }
            },
            Option::None => {
                let st = AxisStatus { direction: dir, ..AxisStatus::default() };
                proof {
                    lemma_assoc_push(self.axes@, id, st);
                }
                self.axes.push((id, st));
                proof {
                    lemma_assoc_contains(old(self).axes@, id);
                    assert(forall|j: int|
                        0 <= j < old(self).axes@.len() ==> #[trigger] self.axes@[j] == old(
                            self,
                        ).axes@[j]);
                    assert(self.axes@[self.axes@.len() - 1].1 == st);
                }
            },
        }
    }

    /// Sets the pressed state of button `id`, materialising it if unknown;
    /// the last reported event wins.
    fn set_button_state(&mut self, id: u64, pressed: bool)
        requires
            old(self).wf(),
        ensures
            final(self).wf(),
            final(self).button_map() == old(self).button_map().insert(id, pressed),
            final(self).bindings@ == old(self).bindings@,
            final(self).axes@ == old(self).axes@,
    {
        match self.find_button(id) {
            Option::Some(i) => {
                proof {
                    lemma_assoc_update(self.buttons@, i as int, pressed);
                }
                self.buttons.set(i, (id, pressed));
            },
            Option::None => {
                proof {
                    lemma_assoc_push(self.buttons@, id, pressed);
                }
                self.buttons.push((id, pressed));
            },
        }
    }

    /// Applies a logical effect: an axis effect sets the axis's target
    /// direction (the bound sign on key-down, rest on key-up), a button
    /// effect sets the button's pressed state.
    fn update_effect(&mut self, effect: InputEffect, started: bool)
        requires
            old(self).wf(),
        ensures
            final(self).wf(),
            final(self).binding_map() == old(self).binding_map(),
            match effect {
                InputEffect::Axis(id, positive) => final(self).button_map() == old(
                    self,
                ).button_map() && final(self).axis_map() == axis_with_direction(
                    old(self).axis_map(),
                    id,
                    event_direction(positive, started),
                ),
                InputEffect::Button(id) => final(self).axis_map() == old(self).axis_map()
                    && final(self).button_map() == old(self).button_map().insert(id, started),
            },
    {
        match effect {
            InputEffect::Axis(id, positive) => {
                let dir: i64 = if !started {
                    0
                } else if positive {
                    AXIS_UNIT
                } else {
                    -AXIS_UNIT
                };
                self.set_axis_direction(id, dir);
            },
            InputEffect::Button(id) => {
                self.set_button_state(id, started);
            },
        }
    }

    /// Key-down hook: looks the key up in the binding table and applies the
    /// bound effect; an absent or unbound key is a harmless no-op. Should be
    /// called from the host's key-down event handler.
    pub fn update_keydown(&mut self, keycode: Option<u64>)
        requires
            old(self).wf(),
        ensures
            final(self).wf(),
            final(self).binding_map() == old(self).binding_map(),
            (final(self).axis_map(), final(self).button_map()) == after_key_event(
                old(self).binding_map(),
                old(self).axis_map(),
                old(self).button_map(),
                keycode,
                true,
            ),
    {
        self.dispatch_key(keycode, true);
    }

    /// Key-up hook: looks the key up in the binding table and applies the
    /// bound effect in reverse (axis to rest, button released); an absent or
    /// unbound key is a harmless no-op. Should be called from the host's
    /// key-up event handler.
    pub fn update_keyup(&mut self, keycode: Option<u64>)
        requires
            old(self).wf(),
        ensures
            final(self).wf(),
            final(self).binding_map() == old(self).binding_map(),
            (final(self).axis_map(), final(self).button_map()) == after_key_event(
                old(self).binding_map(),
                old(self).axis_map(),
                old(self).button_map(),
                keycode,
                false,
            ),
    {
        self.dispatch_key(keycode, false);
    }

    /// Shared body of the key-down and key-up hooks.
    fn dispatch_key(&mut self, keycode: Option<u64>, started: bool)
        requires
            old(self).wf(),
        ensures
            final(self).wf(),
            final(self).binding_map() == old(self).binding_map(),
            (final(self).axis_map(), final(self).button_map()) == after_key_event(
                old(self).binding_map(),
                old(self).axis_map(),
                old(self).button_map(),
                keycode,
                started,
            ),
    {
        if let Option::Some(k) = keycode {
            let ev = InputEvent::KeyEvent(k);
            proof {
                lemma_assoc_contains(self.bindings@, ev);
            }
            match self.find_binding(ev) {
                Option::Some(i) => {
                    let eff = self.bindings[i].1;
                    proof {
                        lemma_assoc_index(self.bindings@, i as int);
                    }
                    self.update_effect(eff, started);
                },
                Option::None => {},
            }
        }
    }
    /// Advances every axis's position by the elapsed time `dt`, in
    /// milliseconds: toward the target while a direction is set, back toward
    /// rest otherwise, never past one unit and never past rest. Should be
    /// called once per frame, after the frame's key events were dispatched.
    pub fn update(&mut self, dt: u64)
        requires
            old(self).wf(),
        ensures
            final(self).wf(),
            final(self).binding_map() == old(self).binding_map(),
            final(self).button_map() == old(self).button_map(),
            final(self).axis_map().dom() == old(self).axis_map().dom(),
            forall|id: u64|
                #[trigger] old(self).axis_map().contains_key(id) ==> final(self).axis_map()[id]
                    == axis_step(old(self).axis_map()[id], dt as int),
    {
        let n = self.axes.len();
        let mut stepped: Vec<(u64, AxisStatus)> = Vec::new();
        let mut i: usize = 0;
        while i < n
            invariant
                i <= n,
                n == self.axes@.len(),
                self.wf(),
                stepped@.len() == i,
                forall|j: int|
                    0 <= j < i ==> #[trigger] stepped@[j] == (
                        self.axes@[j].0,
                        axis_step(self.axes@[j].1, dt as int),
                    ),
            decreases n - i,
        {
            let (id, st) = self.axes[i];
            stepped.push((id, step_axis(st, dt)));
            i += 1;
        }
        proof {
            lemma_assoc_same_keys(self.axes@, stepped@);
            assert forall|j: int| 0 <= j < stepped@.len() implies valid_axis(
                (#[trigger] stepped@[j]).1,
            ) by {
                lemma_step_valid(self.axes@[j].1, dt as int);
            }
        }
        let ghost before = self.axes@;
        self.axes = stepped;
        proof {
            assert forall|id: u64| #[trigger]
                assoc_map(before).contains_key(id) implies assoc_map(self.axes@)[id] == axis_step(
                assoc_map(before)[id],
                dt as int,
            ) by {
                lemma_assoc_contains(before, id);
                let j = choose|j: int| 0 <= j < before.len() && (#[trigger] before[j]).0 == id;
                lemma_assoc_index(before, j);
                lemma_assoc_index(self.axes@, j);
            }
        }
    }

    /// Returns the current tweened position of `axis`, in micro-units; an
    /// unknown axis is materialised at rest with defaults, so a read is
    /// never an error.
    pub fn get_axis(&mut self, axis: u64) -> (r: i64)
        requires
            old(self).wf(),
        ensures
            final(self).wf(),
            final(self).binding_map() == old(self).binding_map(),
            final(self).button_map() == old(self).button_map(),
            final(self).axis_map() == with_axis_entry(old(self).axis_map(), axis),
            r == final(self).axis_map()[axis].position,
            -AXIS_UNIT <= r <= AXIS_UNIT,
    {
        self.ensure_axis(axis);
        let i = match self.find_axis(axis) {
            Option::Some(i) => i,
            Option::None => {
                proof {
                    lemma_assoc_contains(self.axes@, axis);
                }
                unreached()
            },
        };
        proof {
            lemma_assoc_index(self.axes@, i as int);
        }
        self.axes[i].1.position
    }

    /// Returns the current raw target direction of `axis`, in micro-units
    /// (`-AXIS_UNIT`, `0` or `AXIS_UNIT` for digital sources); an unknown
    /// axis is materialised at rest with defaults.
    pub fn get_axis_raw(&mut self, axis: u64) -> (r: i64)
        requires
            old(self).wf(),
        ensures
            final(self).wf(),
            final(self).binding_map() == old(self).binding_map(),
            final(self).button_map() == old(self).button_map(),
            final(self).axis_map() == with_axis_entry(old(self).axis_map(), axis),
            r == final(self).axis_map()[axis].direction,
            r == (-AXIS_UNIT) as i64 || r == 0 || r == AXIS_UNIT,
    {
        self.ensure_axis(axis);
        let i = match self.find_axis(axis) {
            Option::Some(i) => i,
            Option::None => {
                proof {
                    lemma_assoc_contains(self.axes@, axis);
                }
                unreached()
            },
        };
        proof {
            lemma_assoc_index(self.axes@, i as int);
        }
        self.axes[i].1.direction
    }

    /// Returns whether `button` is currently held; an unknown button reads
    /// as released, without being materialised.
    pub fn get_button(&self, button: u64) -> (r: bool)
        requires
            self.wf(),
        ensures
            r == (self.button_map().contains_key(button) && self.button_map()[button]),
    {
        proof {
            lemma_assoc_contains(self.buttons@, button);
        }
        match self.find_button(button) {
            Option::Some(i) => {
                proof {
                    lemma_assoc_index(self.buttons@, i as int);
                }
                self.buttons[i].1
            },
            Option::None => false,
        }
    }

    /// Returns whether `button` is currently held; same as `get_button`.
    pub fn get_button_down(&self, button: u64) -> (r: bool)
        requires
            self.wf(),
        ensures
            r == (self.button_map().contains_key(button) && self.button_map()[button]),
    {
        self.get_button(button)
    }

    /// Returns whether `button` is currently released: the negation of
    /// `get_button`.
    pub fn get_button_up(&self, button: u64) -> (r: bool)
        requires
            self.wf(),
        ensures
            r == !(self.button_map().contains_key(button) && self.button_map()[button]),
    {
        !self.get_button(button)
    }

    /// Mouse position queries are reserved surface; does nothing.
    pub fn mouse_position() {
    }

    /// Mouse scroll queries are reserved surface; does nothing.
    pub fn mouse_scroll_delta() {
    }

    /// Mouse button queries are reserved surface; does nothing.
    pub fn get_mouse_button() {
    }

    /// Mouse button queries are reserved surface; does nothing.
    pub fn get_mouse_button_down() {
    }

    /// Mouse button queries are reserved surface; does nothing.
    pub fn get_mouse_button_up() {
    }

    /// Sets every known axis's position and direction to exactly 0,
    /// regardless of prior state and of keys still physically held; rates
    /// and bindings are untouched.
    pub fn reset_input_axes(&mut self)
        requires
            old(self).wf(),
        ensures
            final(self).wf(),
            final(self).binding_map() == old(self).binding_map(),
            final(self).button_map() == old(self).button_map(),
            final(self).axis_map().dom() == old(self).axis_map().dom(),
            forall|id: u64|
                #[trigger] old(self).axis_map().contains_key(id) ==> final(self).axis_map()[id]
                    == (AxisStatus {
                    position: 0,
                    direction: 0,
                    acceleration: old(self).axis_map()[id].acceleration,
                    gravity: old(self).axis_map()[id].gravity,
                }),
    {
        let n = self.axes.len();
        let mut cleared: Vec<(u64, AxisStatus)> = Vec::new();
        let mut i: usize = 0;
        while i < n
            invariant
                i <= n,
                n == self.axes@.len(),
                self.wf(),
                cleared@.len() == i,
                forall|j: int|
                    0 <= j < i ==> #[trigger] cleared@[j] == (
                        self.axes@[j].0,
                        AxisStatus { position: 0, direction: 0, ..self.axes@[j].1 },
                    ),
            decreases n - i,
        {
            let (id, st) = self.axes[i];
            cleared.push((id, AxisStatus { position: 0, direction: 0, ..st }));
            i += 1;
        }
        proof {
            lemma_assoc_same_keys(self.axes@, cleared@);
            assert(forall|j: int|
                0 <= j < cleared@.len() ==> valid_axis((#[trigger] cleared@[j]).1));
        }
        let ghost before = self.axes@;
        self.axes = cleared;
        proof {
            assert forall|id: u64| #[trigger]
                assoc_map(before).contains_key(id) implies assoc_map(self.axes@)[id] == (AxisStatus {
                position: 0,
                direction: 0,
                acceleration: assoc_map(before)[id].acceleration,
                gravity: assoc_map(before)[id].gravity,
            }) by {
                lemma_assoc_contains(before, id);
                let j = choose|j: int| 0 <= j < before.len() && (#[trigger] before[j]).0 == id;
                lemma_assoc_index(before, j);
                lemma_assoc_index(self.axes@, j);
            }
        }
    }
}

/// One `update(dt)` step of a single axis, in executable form.
fn step_axis(st: AxisStatus, dt: u64) -> (r: AxisStatus)
    requires
        valid_axis(st),
    ensures
        r == axis_step(st, dt as int),
{
    let dtc: i64 = if dt > 1_000_000u64 {
        1_000_000
    } else {
        dt as i64
    };
    proof {
        if dt > 1_000_000u64 {
            assert(st.acceleration * (dt as int) >= st.acceleration * (dtc as int)
                && st.acceleration * (dtc as int) >= dtc as int) by (nonlinear_arith)
                requires
                    st.acceleration >= 1,
                    dt as int >= dtc as int,
                    dtc == 1_000_000i64,
            ;
            assert(st.gravity * (dt as int) >= st.gravity * (dtc as int) && st.gravity * (
            dtc as int) >= dtc as int) by (nonlinear_arith)
                requires
                    st.gravity >= 1,
                    dt as int >= dtc as int,
                    dtc == 1_000_000i64,
            ;
        }
        assert(st.acceleration * (dtc as int) <= 1_000_000_000_000int) by (nonlinear_arith)
            requires
                0 < st.acceleration <= 1_000_000,
                0 <= dtc <= 1_000_000,
        ;
        assert(st.gravity * (dtc as int) <= 1_000_000_000_000int) by (nonlinear_arith)
            requires
                0 < st.gravity <= 1_000_000,
                0 <= dtc <= 1_000_000,
        ;
        assert(st.acceleration * (dtc as int) >= 0) by (nonlinear_arith)
            requires
                st.acceleration > 0,
                dtc >= 0,
        ;
        assert(st.gravity * (dtc as int) >= 0) by (nonlinear_arith)
            requires
                st.gravity > 0,
                dtc >= 0,
        ;
    }
    if st.direction != 0 {
        let magp: i64 = if st.position >= 0 {
            st.position
        } else {
            -st.position
        };
        let gap: i64 = AXIS_UNIT - magp;
        let raw: i64 = st.acceleration * dtc;
        let step: i64 = if raw < gap {
            raw
        } else {
            gap
        };
        let newpos: i64 = if st.direction > 0 {
            st.position + step
        } else {
            st.position - step
        };
        AxisStatus { position: newpos, ..st }
    } else {
        let magp: i64 = if st.position >= 0 {
            st.position
        } else {
            -st.position
        };
        let raw: i64 = st.gravity * dtc;
        let step: i64 = if raw < magp {
            raw
        } else {
            magp
        };
        let newpos: i64 = if st.position > 0 {
            st.position - step
        } else {
            st.position + step
        };
        AxisStatus { position: newpos, ..st }
    }
}

/// An `update(0)` call never changes any axis state: with no elapsed time,
/// the step every axis takes under `update` is the identity, so the whole
/// registry is left as it was.
pub proof fn lemma_zero_dt_update_is_identity(axes: Map<u64, AxisStatus>)
    requires
        forall|id: u64| #[trigger] axes.contains_key(id) ==> valid_axis(axes[id]),
    ensures
        forall|id: u64| #[trigger] axes.contains_key(id) ==> axis_step(axes[id], 0) == axes[id],
{
    assert forall|id: u64| #[trigger] axes.contains_key(id) implies axis_step(axes[id], 0)
        == axes[id] by {
        crate::tween::lemma_step_zero_dt(axes[id]);
    }
}

/// Binding then immediately querying an axis or button that was never
/// driven returns the default: the registries a binding call leaves behind
/// hold the fresh axis at rest (`position == 0`, `direction == 0`) and the
/// fresh button released.
pub proof fn lemma_bind_then_query_defaults(
    axes: Map<u64, AxisStatus>,
    buttons: Map<u64, bool>,
    axis: u64,
    button: u64,
)
    requires
        !axes.contains_key(axis),
        !buttons.contains_key(button),
    ensures
        with_axis_entry(axes, axis)[axis] == default_axis(),
        with_axis_entry(axes, axis)[axis].position == 0,
        with_axis_entry(axes, axis)[axis].direction == 0,
        with_button_entry(buttons, button)[button] == false,
{
}

} // verus!
