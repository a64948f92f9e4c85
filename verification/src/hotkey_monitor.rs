//! Keys and pointer of the hotkey helper, from events to commands.
//! Times are nanoseconds on a monotonic clock.
use crate::hotkey_bindings::{
    HotkeyAction, KeyChord, MOD_ALT, MOD_CONTROL, MOD_META, MOD_SHIFT,
};
use crate::path_map;
use crate::path_map::PathMap;
use crate::paths;
use crate::text;
use vstd::prelude::*;
use vstd::string::*;

verus! {

broadcast use vstd::string::group_string_axioms;

pub const MAX_KEYBOARDS: usize = 16;

pub const MAX_MICE: usize = 8;

/// How many links of each directory are looked at.
pub const MAX_DEVICE_LINKS_SCANNED: usize = 64;

pub const EV_KEY: u16 = 1;

pub const EV_REL: u16 = 2;

pub const KEY_ESC: u16 = 1;

pub const BTN_LEFT: u16 = 272;

pub const KEY_LEFTCTRL: u16 = 29;

pub const KEY_LEFTSHIFT: u16 = 42;

pub const KEY_LEFTALT: u16 = 56;

pub const KEY_LEFTMETA: u16 = 125;

pub const KEY_RIGHTCTRL: u16 = 97;

pub const KEY_RIGHTSHIFT: u16 = 54;

pub const KEY_RIGHTALT: u16 = 100;

pub const KEY_RIGHTMETA: u16 = 126;

/// How far a command moves the pointer at most.
pub const MOTION_LIMIT: i32 = 4_096;

pub const POINTER_BASE_GAIN_MILLI: i64 = 8_500;

pub const POINTER_SPEED_GAIN_MILLI: i64 = 300;

pub const POINTER_SPEED_LIMIT: i64 = 32;

pub const POINTER_VERTICAL_RATIO_MILLI: i64 = 1_568;

pub const MOTION_INTERVAL: u64 = 8_000_000;

pub const MENU_PING_INTERVAL: u64 = 500_000_000;

pub const MENU_INACTIVITY_TIMEOUT: u64 = 30_000_000_000;

/// A key of one device that went down or up.
#[derive(Clone, Copy, Debug, PartialEq, Eq, Structural)]
pub struct KeyEvent {
    pub device: usize,
    pub code: u16,
    pub value: i32,
}

/// The key event that an input event stands for.
pub open spec fn decoded_key(device: usize, event_type: u16, code: u16, value: i32) -> Option<
    KeyEvent,
> {
    if event_type == EV_KEY {
        Some(KeyEvent { device, code, value })
    } else {
        None
    }
}

/// The key event in an input event, if it is one.
pub fn key_event(device: usize, event_type: u16, code: u16, value: i32) -> (result: Option<KeyEvent>)
    ensures
        result == decoded_key(device, event_type, code, value),
        result == (if event_type == EV_KEY {
            Some(KeyEvent { device, code, value })
        } else {
            None
        }),
{
    if event_type != EV_KEY {
        return None;
    }
    Some(KeyEvent { device, code, value })
}

/// The keys that are down, each with its device.
#[derive(Debug)]
pub struct PressedKeys {
    keys: Vec<(usize, u16)>,
}

impl View for PressedKeys {
    type V = Set<(usize, u16)>;

    closed spec fn view(&self) -> Set<(usize, u16)> {
        self.keys@.to_set()
    }
}

/// Whether a key is down on some device.
pub open spec fn is_down(pressed: Set<(usize, u16)>, code: u16) -> bool {
    exists|device: usize| pressed.contains((device, code))
}

impl PressedKeys {
    #[verifier::type_invariant]
    spec fn distinct(self) -> bool {
        self.keys@.no_duplicates()
    }

    pub fn new() -> (result: Self)
        ensures
            result@ == Set::<(usize, u16)>::empty(),
    {
        let pressed = PressedKeys { keys: Vec::new() };
        assert(pressed@ =~= Set::<(usize, u16)>::empty());
        pressed
    }

    fn position(&self, device: usize, code: u16) -> (result: Option<usize>)
        ensures
            match result {
                Some(index) => index < self.keys@.len() && self.keys@[index as int] == (
                    device,
                    code,
                ),
                None => !self.keys@.contains((device, code)),
            },
    {
        let mut index: usize = 0;
        while index < self.keys.len()
            invariant
                index <= self.keys@.len(),
                forall|i: int| 0 <= i < index ==> self.keys@[i] != (device, code),
            decreases self.keys@.len() - index,
        {
            let (other_device, other_code) = self.keys[index];
            if other_device == device && other_code == code {
                return Some(index);
            }
            index = index + 1;
        }
        None
    }

    pub fn insert(&mut self, device: usize, code: u16)
        ensures
            final(self)@ == old(self)@.insert((device, code)),
    {
        proof {
            use_type_invariant(&*self);
        }
        let ghost before = self.keys@;
        if self.position(device, code).is_none() {
            let mut keys: Vec<(usize, u16)> = Vec::new();
            std::mem::swap(&mut keys, &mut self.keys);
            keys.push((device, code));
            proof {
                let now = keys@;
                assert forall|key: (usize, u16)| now.to_set().contains(key)
                    <==> before.to_set().insert((device, code)).contains(key) by {
                    assert(now[before.len() as int] == (device, code));
                    if before.contains(key) {
                        let i = choose|i: int| 0 <= i < before.len() && before[i] == key;
                        assert(now[i] == key);
                    }
                }
            }
            self.keys = keys;
        }
        assert(self@ =~= before.to_set().insert((device, code)));
    }

    pub fn remove(&mut self, device: usize, code: u16)
        ensures
            final(self)@ == old(self)@.remove((device, code)),
    {
        proof {
            use_type_invariant(&*self);
        }
        let ghost before = self.keys@;
        if let Some(index) = self.position(device, code) {
            let mut keys: Vec<(usize, u16)> = Vec::new();
            std::mem::swap(&mut keys, &mut self.keys);
            let _ = keys.remove(index);
            proof {
                let now = keys@;
                assert(now =~= before.remove(index as int));
                assert forall|key: (usize, u16)| now.to_set().contains(key)
                    <==> before.to_set().remove((device, code)).contains(key) by {
                    if now.contains(key) {
                        let i = choose|i: int| 0 <= i < now.len() && now[i] == key;
                        if i < index {
                            assert(before[i] == key);
                        } else {
                            assert(before[i + 1] == key);
                        }
                    }
                    if before.contains(key) && key != (device, code) {
                        let i = choose|i: int| 0 <= i < before.len() && before[i] == key;
                        if i < index {
                            assert(now[i] == key);
                        } else {
                            assert(now[i - 1] == key);
                        }
                    }
                }
            }
            self.keys = keys;
        }
        assert(self@ =~= before.to_set().remove((device, code)));
    }

    /// Whether a key is down on some device.
    pub fn has_code(&self, code: u16) -> (result: bool)
        ensures
            result == is_down(self@, code),
    {
        let mut index: usize = 0;
        while index < self.keys.len()
            invariant
                index <= self.keys@.len(),
                forall|i: int| 0 <= i < index ==> (#[trigger] self.keys@[i]).1 != code,
            decreases self.keys@.len() - index,
        {
            let (device, other) = self.keys[index];
            if other == code {
                assert(self.keys@[index as int] == (device, code));
                assert(self@.contains((device, code)));
                return true;
            }
            index = index + 1;
        }
        assert(!is_down(self@, code)) by {
            if is_down(self@, code) {
                let device = choose|device: usize| self@.contains((device, code));
                let i = choose|i: int| 0 <= i < self.keys@.len() && self.keys@[i] == (device, code);
                assert(self.keys@[i].1 == code);
            }
        }
        false
    }
}

/// Whether a press of a key is the first: keyboards that show as several
/// devices report each press on more than one of them.
pub fn logical_press_is_new(pressed: &PressedKeys, code: u16) -> (result: bool)
    ensures
        result == !is_down(pressed@, code),
{
    !pressed.has_code(code)
}

/// The modifiers that are down.
pub open spec fn held_modifiers(pressed: Set<(usize, u16)>) -> u8 {
    let control = if is_down(pressed, KEY_LEFTCTRL) || is_down(pressed, KEY_RIGHTCTRL) {
        0 | MOD_CONTROL
    } else {
        0
    };
    let shift = if is_down(pressed, KEY_LEFTSHIFT) || is_down(pressed, KEY_RIGHTSHIFT) {
        control | MOD_SHIFT
    } else {
        control
    };
    let alt = if is_down(pressed, KEY_LEFTALT) || is_down(pressed, KEY_RIGHTALT) {
        shift | MOD_ALT
    } else {
        shift
    };
    if is_down(pressed, KEY_LEFTMETA) || is_down(pressed, KEY_RIGHTMETA) {
        alt | MOD_META
    } else {
        alt
    }
}

pub fn active_modifiers(pressed: &PressedKeys) -> (result: u8)
    ensures
        result == held_modifiers(pressed@),
{
    let mut modifiers: u8 = 0;
    if pressed.has_code(KEY_LEFTCTRL) || pressed.has_code(KEY_RIGHTCTRL) {
        modifiers = modifiers | MOD_CONTROL;
    }
    if pressed.has_code(KEY_LEFTSHIFT) || pressed.has_code(KEY_RIGHTSHIFT) {
        modifiers = modifiers | MOD_SHIFT;
    }
    if pressed.has_code(KEY_LEFTALT) || pressed.has_code(KEY_RIGHTALT) {
        modifiers = modifiers | MOD_ALT;
    }
    if pressed.has_code(KEY_LEFTMETA) || pressed.has_code(KEY_RIGHTMETA) {
        modifiers = modifiers | MOD_META;
    }
    modifiers
}

/// Whether a key is one of the modifiers.
pub open spec fn modifier_key(code: u16) -> bool {
    code == KEY_LEFTCTRL || code == KEY_RIGHTCTRL || code == KEY_LEFTSHIFT || code == KEY_RIGHTSHIFT
        || code == KEY_LEFTALT || code == KEY_RIGHTALT || code == KEY_LEFTMETA || code
        == KEY_RIGHTMETA
}

pub fn is_modifier_key(code: u16) -> (result: bool)
    ensures
        result == modifier_key(code),
{
    code == KEY_LEFTCTRL || code == KEY_RIGHTCTRL || code == KEY_LEFTSHIFT || code == KEY_RIGHTSHIFT
        || code == KEY_LEFTALT || code == KEY_RIGHTALT || code == KEY_LEFTMETA || code
        == KEY_RIGHTMETA
}

/// The action of the first binding with a key and exactly these modifiers.
pub open spec fn bound_action(bindings: Seq<KeyChord>, key: u16, modifiers: u8) -> Option<
    HotkeyAction,
>
    decreases bindings.len(),
{
    if bindings.len() == 0 {
        None
    } else if bindings[0].key == key && bindings[0].modifiers == modifiers {
        Some(bindings[0].action)
    } else {
        bound_action(bindings.skip(1), key, modifiers)
    }
}

fn find_action(bindings: &[KeyChord], key: u16, modifiers: u8) -> (result: Option<HotkeyAction>)
    ensures
        result == bound_action(bindings@, key, modifiers),
{
    let mut index: usize = 0;
    assert(bindings@.skip(0) =~= bindings@);
    while index < bindings.len()
        invariant
            index <= bindings@.len(),
            bound_action(bindings@, key, modifiers) == bound_action(
                bindings@.skip(index as int),
                key,
                modifiers,
            ),
        decreases bindings@.len() - index,
    {
        assert(bindings@.skip(index as int)[0] == bindings@[index as int]);
        assert(bindings@.skip(index as int).skip(1) =~= bindings@.skip(index + 1));
        let binding = bindings[index];
        if binding.key == key && binding.modifiers == modifiers {
            return Some(binding.action);
        }
        index = index + 1;
    }
    None
}

/// What a key event asks for: first to close the menu, then to act.
#[derive(Clone, Copy, Debug, PartialEq, Eq, Structural)]
pub struct KeyDecision {
    pub close_menu: bool,
    pub action: Option<HotkeyAction>,
    /// Whether the next key event is looked at before the mouse.
    pub ends_turn: bool,
}

/// The keys that are down after an event.
pub open spec fn after_key(pressed: Set<(usize, u16)>, event: KeyEvent) -> Set<(usize, u16)> {
    if event.value == 0 {
        pressed.remove((event.device, event.code))
    } else if event.value == 1 {
        pressed.insert((event.device, event.code))
    } else {
        pressed
    }
}

/// What a key event asks for. Only the first press of a key counts. The menu
/// is for the mouse alone: a key other than a modifier or the shortcut of the
/// overlay closes it, so that it never stands in the way of another window.
pub open spec fn key_decision(
    pressed: Set<(usize, u16)>,
    event: KeyEvent,
    bindings: Seq<KeyChord>,
    menu_open: bool,
) -> KeyDecision {
    if event.value != 1 {
        KeyDecision { close_menu: false, action: None, ends_turn: false }
    } else if is_down(pressed, event.code) {
        KeyDecision { close_menu: false, action: None, ends_turn: true }
    } else if menu_open && event.code == KEY_ESC {
        KeyDecision { close_menu: true, action: None, ends_turn: true }
    } else {
        let action = bound_action(bindings, event.code, held_modifiers(after_key(pressed, event)));
        KeyDecision {
            close_menu: menu_open && action != Some(HotkeyAction::ToggleOverlay) && !modifier_key(
                event.code,
            ),
            action,
            ends_turn: false,
        }
    }
}

/// Takes a key event into account.
pub fn handle_key(
    pressed: &mut PressedKeys,
    event: KeyEvent,
    bindings: &[KeyChord],
    menu_open: bool,
) -> (result: KeyDecision)
    ensures
        final(pressed)@ == after_key(old(pressed)@, event),
        result == key_decision(old(pressed)@, event, bindings@, menu_open),
{
    let nothing = KeyDecision { close_menu: false, action: None, ends_turn: false };
    if event.value == 0 {
        pressed.remove(event.device, event.code);
        return nothing;
    }
    if event.value != 1 {
        return nothing;
    }
    let first = logical_press_is_new(pressed, event.code);
    pressed.insert(event.device, event.code);
    if !first {
        return KeyDecision { close_menu: false, action: None, ends_turn: true };
    }
    if menu_open && event.code == KEY_ESC {
        return KeyDecision { close_menu: true, action: None, ends_turn: true };
    }
    let modifiers: u8 = active_modifiers(pressed);
    let action = find_action(bindings, event.code, modifiers);
    let toggles = match action {
        Some(HotkeyAction::ToggleOverlay) => true,
        _ => false,
    };
    KeyDecision {
        close_menu: menu_open && !toggles && !is_modifier_key(event.code),
        action,
        ends_turn: false,
    }
}

/// A press that a second device repeats triggers nothing, and the key counts
/// as up only when every device has let it go.
pub proof fn repeated_press_triggers_nothing(
    pressed: Set<(usize, u16)>,
    first: usize,
    second: usize,
    code: u16,
    bindings: Seq<KeyChord>,
    menu_open: bool,
)
    requires
        first != second,
    ensures
        ({
            let down = after_key(pressed, KeyEvent { device: first, code, value: 1 });
            let again = KeyEvent { device: second, code, value: 1 };
            let both = after_key(down, again);
            &&& key_decision(down, again, bindings, menu_open) == (KeyDecision {
                close_menu: false,
                action: None,
                ends_turn: true,
            })
            &&& is_down(after_key(both, KeyEvent { device: first, code, value: 0 }), code)
        }),
{
    let down = after_key(pressed, KeyEvent { device: first, code, value: 1 });
    assert(down.contains((first, code)));
    let both = after_key(down, KeyEvent { device: second, code, value: 1 });
    let after = after_key(both, KeyEvent { device: first, code, value: 0 });
    assert(after.contains((second, code)));
}

/// An open menu is closed by every key that is neither a modifier nor the
/// overlay's shortcut.
pub proof fn other_keys_close_the_menu(
    pressed: Set<(usize, u16)>,
    event: KeyEvent,
    bindings: Seq<KeyChord>,
)
    requires
        event.value == 1,
        !is_down(pressed, event.code),
        !modifier_key(event.code),
        key_decision(pressed, event, bindings, true).action != Some(HotkeyAction::ToggleOverlay),
    ensures
        key_decision(pressed, event, bindings, true).close_menu,
{
}

/// What a mouse reports.
#[derive(Clone, Copy, Debug, PartialEq, Eq, Structural)]
pub enum PointerEvent {
    MotionX(i32),
    MotionY(i32),
    LeftButton(bool),
}

/// The pointer event that an input event stands for.
pub open spec fn decoded_pointer(event_type: u16, code: u16, value: i32) -> Option<PointerEvent> {
    if event_type == EV_REL {
        if code == 0 {
            Some(PointerEvent::MotionX(value))
        } else if code == 1 {
            Some(PointerEvent::MotionY(value))
        } else {
            None
        }
    } else if event_type == EV_KEY && code == BTN_LEFT && (value == 0 || value == 1) {
        Some(PointerEvent::LeftButton(value == 1))
    } else {
        None
    }
}

/// The pointer event in an input event: a relative motion, or an edge of the
/// left button.
pub fn parse_pointer_event(event_type: u16, code: u16, value: i32) -> (result: Option<PointerEvent>)
    ensures
        result == decoded_pointer(event_type, code, value),
        result == (if event_type == EV_REL && code == 0 {
            Some(PointerEvent::MotionX(value))
        } else if event_type == EV_REL && code == 1 {
            Some(PointerEvent::MotionY(value))
        } else if event_type == EV_KEY && code == BTN_LEFT && value == 0 {
            Some(PointerEvent::LeftButton(false))
        } else if event_type == EV_KEY && code == BTN_LEFT && value == 1 {
            Some(PointerEvent::LeftButton(true))
        } else {
            None
        }),
{
    if event_type == EV_REL && code == 0 {
        Some(PointerEvent::MotionX(value))
    } else if event_type == EV_REL && code == 1 {
        Some(PointerEvent::MotionY(value))
    } else if event_type == EV_KEY && code == BTN_LEFT && value == 0 {
        Some(PointerEvent::LeftButton(false))
    } else if event_type == EV_KEY && code == BTN_LEFT && value == 1 {
        Some(PointerEvent::LeftButton(true))
    } else {
        None
    }
}

/// The nearest number within the limit of a motion.
pub open spec fn limited(value: int) -> i32 {
    if value > MOTION_LIMIT {
        MOTION_LIMIT
    } else if value < -MOTION_LIMIT {
        (-MOTION_LIMIT) as i32
    } else {
        value as i32
    }
}

fn limit(value: i64) -> (result: i32)
    ensures
        result == limited(value as int),
{
    if value > MOTION_LIMIT as i64 {
        MOTION_LIMIT
    } else if value < -(MOTION_LIMIT as i64) {
        -MOTION_LIMIT
    } else {
        value as i32
    }
}

/// Motion that waits to be sent.
#[derive(Clone, Copy, Debug, PartialEq, Eq, Structural)]
pub struct PendingMotion {
    pub x: i32,
    pub y: i32,
}

impl Default for PendingMotion {
    fn default() -> (result: Self)
        ensures
            result == (PendingMotion { x: 0, y: 0 }),
    {
        PendingMotion { x: 0, y: 0 }
    }
}

/// Waiting motion with one more event.
pub open spec fn with_motion(motion: PendingMotion, event: PointerEvent) -> PendingMotion {
    match event {
        PointerEvent::MotionX(value) => PendingMotion { x: limited(motion.x + value), ..motion },
        PointerEvent::MotionY(value) => PendingMotion { y: limited(motion.y + value), ..motion },
        PointerEvent::LeftButton(_) => motion,
    }
}

impl PendingMotion {
    /// Adds a motion, within the limit.
    pub fn add(&mut self, event: PointerEvent)
        ensures
            *final(self) == with_motion(*old(self), event),
    {
        match event {
            PointerEvent::MotionX(value) => {
                self.x = limit(self.x as i64 + value as i64);
            },
            PointerEvent::MotionY(value) => {
                self.y = limit(self.y as i64 + value as i64);
            },
            PointerEvent::LeftButton(_) => {},
        }
    }

    /// Takes the motion, if there is any.
    pub fn take(&mut self) -> (result: Option<(i32, i32)>)
        ensures
            *final(self) == (PendingMotion { x: 0, y: 0 }),
            result == (if old(self).x == 0 && old(self).y == 0 {
                None
            } else {
                Some((old(self).x, old(self).y))
            }),
    {
        let x: i32 = self.x;
        let y: i32 = self.y;
        self.x = 0;
        self.y = 0;
        if x == 0 && y == 0 {
            return None;
        }
        Some((x, y))
    }
}

pub open spec fn magnitude(value: i32) -> int {
    if value < 0 {
        -value
    } else {
        value as int
    }
}

/// The gain of a motion, in thousandths: it grows with the faster axis.
pub open spec fn pointer_gain(x: i32, y: i32) -> int {
    let faster = if magnitude(x) > magnitude(y) {
        magnitude(x)
    } else {
        magnitude(y)
    };
    let speed = if faster > POINTER_SPEED_LIMIT {
        POINTER_SPEED_LIMIT as int
    } else {
        faster
    };
    POINTER_BASE_GAIN_MILLI + speed * POINTER_SPEED_GAIN_MILLI
}

/// A millionth of a number, rounded to the nearest, away from zero between
/// two.
pub open spec fn rounded_millionth(value: int) -> int {
    if value >= 0 {
        (value + 500_000) / 1_000_000
    } else {
        -((-value + 500_000) / 1_000_000)
    }
}

/// One axis of an accelerated motion.
pub open spec fn scaled(value: i32, gain: int, ratio: int) -> i32 {
    limited(rounded_millionth(value * gain * ratio))
}

fn scale(value: i32, gain: i64, ratio: i64) -> (result: i32)
    requires
        0 <= gain <= 20_000,
        0 <= ratio <= 2_000,
    ensures
        result == scaled(value, gain as int, ratio as int),
{
    assert(-0x8000_0000 * 20_000 <= value * gain <= 0x8000_0000 * 20_000) by (nonlinear_arith)
        requires
            -0x8000_0000 <= value <= 0x7fff_ffff,
            0 <= gain <= 20_000,
    ;
    let gained: i64 = value as i64 * gain;
    assert(-0x8000_0000 * 40_000_000 <= gained * ratio <= 0x8000_0000 * 40_000_000)
        by (nonlinear_arith)
        requires
            -0x8000_0000 * 20_000 <= gained <= 0x8000_0000 * 20_000,
            0 <= ratio <= 2_000,
    ;
    let numerator: i64 = gained * ratio;
    let rounded: i64 = if numerator >= 0 {
        (numerator + 500_000) / 1_000_000
    } else {
        -((-numerator + 500_000) / 1_000_000)
    };
    limit(rounded)
}

/// The motion of the pointer for a motion of the mouse: faster for fast
/// hands, and further down the screen than across.
pub fn accelerated_pointer_motion(x: i32, y: i32) -> (result: (i32, i32))
    ensures
        result == (
            scaled(x, pointer_gain(x, y), 1_000),
            scaled(y, pointer_gain(x, y), POINTER_VERTICAL_RATIO_MILLI as int),
        ),
{
    let across: i64 = if x < 0 {
        -(x as i64)
    } else {
        x as i64
    };
    let down: i64 = if y < 0 {
        -(y as i64)
    } else {
        y as i64
    };
    let faster: i64 = if across > down {
        across
    } else {
        down
    };
    let speed: i64 = if faster > POINTER_SPEED_LIMIT {
        POINTER_SPEED_LIMIT
    } else {
        faster
    };
    let gain: i64 = POINTER_BASE_GAIN_MILLI + speed * POINTER_SPEED_GAIN_MILLI;
    (scale(x, gain, 1_000), scale(y, gain, POINTER_VERTICAL_RATIO_MILLI))
}

/// An accelerated motion stays within the limit and goes the way of the
/// mouse.
pub proof fn acceleration_is_bounded(x: i32, y: i32, ratio: int)
    requires
        1_000 <= ratio <= 2_000,
    ensures
        -MOTION_LIMIT <= scaled(x, pointer_gain(x, y), ratio) <= MOTION_LIMIT,
        x == 0 ==> scaled(x, pointer_gain(x, y), ratio) == 0,
        x > 0 ==> scaled(x, pointer_gain(x, y), ratio) > 0,
        x < 0 ==> scaled(x, pointer_gain(x, y), ratio) < 0,
{
    let gain = pointer_gain(x, y);
    assert(gain >= 8_500);
    if x > 0 {
        assert(x * gain >= 8_500) by (nonlinear_arith)
            requires
                x >= 1,
                gain >= 8_500,
        ;
        let gained = x * gain;
        assert(gained * ratio >= 8_500_000) by (nonlinear_arith)
            requires
                gained >= 8_500,
                ratio >= 1_000,
        ;
        assert(x * gain * ratio == gained * ratio);
    } else if x < 0 {
        assert(x * gain <= -8_500) by (nonlinear_arith)
            requires
                x <= -1,
                gain >= 8_500,
        ;
        let gained = x * gain;
        assert(gained * ratio <= -8_500_000) by (nonlinear_arith)
            requires
                gained <= -8_500,
                ratio >= 1_000,
        ;
        assert(x * gain * ratio == gained * ratio);
    } else {
        assert(x * gain * ratio == 0) by (nonlinear_arith)
            requires
                x == 0,
        ;
    }
}

/// The menu while it has the mouse.
#[derive(Clone, Copy, Debug, PartialEq, Eq, Structural)]
pub struct MenuCapture {
    pub open: bool,
    pub pending_motion: PendingMotion,
    pub last_motion_sent: u64,
    pub last_input: u64,
    pub last_ping: u64,
}

/// Whether at least `interval` has passed.
pub open spec fn has_passed(since: u64, now: u64, interval: u64) -> bool {
    now >= since + interval
}

fn passed(since: u64, now: u64, interval: u64) -> (result: bool)
    requires
        interval > 0,
    ensures
        result == has_passed(since, now, interval),
{
    now.saturating_sub(since) >= interval
}

#[derive(Clone, Copy, Debug, PartialEq, Eq, Structural)]
pub enum WatchdogAction {
    Keep,
    Inactive,
}

impl MenuCapture {
    pub fn closed(now: u64) -> (result: Self)
        ensures
            result == (MenuCapture {
                open: false,
                pending_motion: PendingMotion { x: 0, y: 0 },
                last_motion_sent: now,
                last_input: now,
                last_ping: now,
            }),
    {
        MenuCapture {
            open: false,
            pending_motion: PendingMotion { x: 0, y: 0 },
            last_motion_sent: now,
            last_input: now,
            last_ping: now,
        }
    }

    pub fn opened(&mut self, now: u64)
        ensures
            *final(self) == (MenuCapture {
                open: true,
                pending_motion: PendingMotion { x: 0, y: 0 },
                last_motion_sent: now,
                last_input: now,
                last_ping: now,
            }),
    {
        self.open = true;
        self.pending_motion = PendingMotion { x: 0, y: 0 };
        self.last_motion_sent = now;
        self.last_input = now;
        self.last_ping = now;
    }

    /// Closes the menu; motion that waits is dropped.
    pub fn closed_by_release(&mut self)
        ensures
            *final(self) == (MenuCapture {
                open: false,
                pending_motion: PendingMotion { x: 0, y: 0 },
                ..*old(self)
            }),
    {
        self.open = false;
        self.pending_motion = PendingMotion { x: 0, y: 0 };
    }

    /// Takes a pointer event. A motion waits; an edge of the button is sent
    /// at once.
    pub fn pointer_event(&mut self, event: PointerEvent, now: u64) -> (result: Option<bool>)
        ensures
            *final(self) == (MenuCapture {
                pending_motion: with_motion(old(self).pending_motion, event),
                last_input: now,
                ..*old(self)
            }),
            result == (match event {
                PointerEvent::LeftButton(pressed) => Some(pressed),
                _ => None,
            }),
    {
        self.last_input = now;
        let mut motion = self.pending_motion;
        motion.add(event);
        self.pending_motion = motion;
        match event {
            PointerEvent::LeftButton(pressed) => Some(pressed),
            _ => None,
        }
    }

    /// The motion to send now, if one is due. Motion that is due is no
    /// longer waiting.
    pub fn due_motion(&mut self, now: u64) -> (result: Option<(i32, i32)>)
        ensures
            ({
                let motion = old(self).pending_motion;
                if !has_passed(old(self).last_motion_sent, now, MOTION_INTERVAL) {
                    result is None && *final(self) == *old(self)
                } else {
                    &&& *final(self) == (MenuCapture {
                        pending_motion: PendingMotion { x: 0, y: 0 },
                        ..*old(self)
                    })
                    &&& result == (if motion.x == 0 && motion.y == 0 {
                        None
                    } else {
                        Some(
                            (
                                scaled(motion.x, pointer_gain(motion.x, motion.y), 1_000),
                                scaled(
                                    motion.y,
                                    pointer_gain(motion.x, motion.y),
                                    POINTER_VERTICAL_RATIO_MILLI as int,
                                ),
                            ),
                        )
                    })
                }
            }),
    {
        if !passed(self.last_motion_sent, now, MOTION_INTERVAL) {
            return None;
        }
        let mut motion = self.pending_motion;
        let taken = motion.take();
        self.pending_motion = motion;
        match taken {
            Some((x, y)) => Some(accelerated_pointer_motion(x, y)),
            None => None,
        }
    }

    /// Takes note that a motion was sent.
    pub fn motion_sent(&mut self, now: u64)
        ensures
            *final(self) == (MenuCapture { last_motion_sent: now, ..*old(self) }),
    {
        self.last_motion_sent = now;
    }

    /// Whether a sign of life is due.
    pub fn ping_due(&self, now: u64) -> (result: bool)
        ensures
            result == has_passed(self.last_ping, now, MENU_PING_INTERVAL),
    {
        passed(self.last_ping, now, MENU_PING_INTERVAL)
    }

    /// Takes note that a sign of life was sent.
    pub fn pinged(&mut self, now: u64)
        ensures
            *final(self) == (MenuCapture { last_ping: now, ..*old(self) }),
    {
        self.last_ping = now;
    }
}

/// Decides whether an open menu was left alone for too long.
pub fn watchdog_action(menu: &MenuCapture, now: u64) -> (result: WatchdogAction)
    ensures
        result == (if menu.open && has_passed(menu.last_input, now, MENU_INACTIVITY_TIMEOUT) {
            WatchdogAction::Inactive
        } else {
            WatchdogAction::Keep
        }),
{
    if menu.open && passed(menu.last_input, now, MENU_INACTIVITY_TIMEOUT) {
        WatchdogAction::Inactive
    } else {
        WatchdogAction::Keep
    }
}

/// What the recorder's control answers.
#[derive(Clone, Copy, Debug, PartialEq, Eq, Structural)]
pub enum ControlReply {
    Done,
    Grab,
    Release,
}

/// A refused request with its explanation.
#[derive(Clone, Debug, PartialEq, Eq)]
pub struct ControlError {
    message: String,
}

impl View for ControlError {
    type V = Seq<char>;

    closed spec fn view(&self) -> Seq<char> {
        self.message@
    }
}

impl ControlError {
    pub fn new(message: &str) -> (result: Self)
        ensures
            result@ == message@,
    {
        ControlError { message: message.to_owned() }
    }

    /// The explanation.
    pub fn message(&self) -> (result: &str)
        ensures
            result@ == self@,
    {
        self.message.as_str()
    }
}

/// The reply in a line of the control, or the explanation of its refusal.
pub open spec fn control_reply(response: Seq<char>) -> Result<ControlReply, Seq<char>> {
    match text::after_prefix(response, "ERROR "@) {
        Some(error) => Err(text::trimmed_end(error)),
        None => if response == "OK\n"@ {
            Ok(ControlReply::Done)
        } else if response == "OK GRAB\n"@ {
            Ok(ControlReply::Grab)
        } else if response == "OK RELEASE\n"@ {
            Ok(ControlReply::Release)
        } else {
            Err("Replay control returned an invalid response"@)
        },
    }
}

fn trim_end(chars: &[char]) -> (result: Vec<char>)
    ensures
        result@ == text::trimmed_end(chars@),
{
    let mut end: usize = chars.len();
    assert(chars@.take(end as int) =~= chars@);
    while end > 0 && text::is_whitespace(chars[end - 1])
        invariant
            end <= chars@.len(),
            text::trimmed_end(chars@.take(end as int)) == text::trimmed_end(chars@),
        decreases end,
    {
        assert(chars@.take(end as int).drop_last() =~= chars@.take(end - 1));
        end = end - 1;
    }
    let result = vstd::slice::slice_to_vec(vstd::slice::slice_subrange(chars, 0, end));
    assert(result@ =~= chars@.take(end as int));
    result
}

/// Reads a line of the control.
pub fn read_reply(response: &str) -> (result: Result<ControlReply, ControlError>)
    ensures
        match control_reply(response@) {
            Ok(reply) => result == Ok::<ControlReply, ControlError>(reply),
            Err(explanation) => result matches Err(error) && error@ == explanation,
        },
{
    let chars = text::chars_of(response);
    if let Some(error) = text::strip_prefix(chars.as_slice(), "ERROR ") {
        let explanation = trim_end(error.as_slice());
        return Err(ControlError { message: text::string_of(explanation.as_slice()) });
    }
    if text::same_text(response, "OK\n") {
        return Ok(ControlReply::Done);
    }
    if text::same_text(response, "OK GRAB\n") {
        return Ok(ControlReply::Grab);
    }
    if text::same_text(response, "OK RELEASE\n") {
        return Ok(ControlReply::Release);
    }
    Err(ControlError::new("Replay control returned an invalid response"))
}

/// What a request to save came to.
pub fn save_outcome(response: &str) -> (result: Result<(), ControlError>)
    ensures
        match control_reply(response@) {
            Ok(reply) => if reply == ControlReply::Done {
                result == Ok::<(), ControlError>(())
            } else {
                result matches Err(error) && error@
                    == "Replay control returned an invalid save response"@
            },
            Err(explanation) => result matches Err(error) && error@ == explanation,
        },
{
    match read_reply(response) {
        Ok(ControlReply::Done) => Ok(()),
        Ok(_) => Err(ControlError::new("Replay control returned an invalid save response")),
        Err(error) => Err(error),
    }
}

/// Whether the menu stays open after a reply.
pub fn keeps_menu_open(reply: ControlReply) -> (result: bool)
    ensures
        result == (reply != ControlReply::Release),
{
    reply != ControlReply::Release
}

/// What the overlay's shortcut does to the menu.
#[derive(Clone, Copy, Debug, PartialEq, Eq, Structural)]
pub enum ToggleStep {
    Close,
    RejectWithoutMouse,
    Ask,
}

/// What the overlay's shortcut does to the menu.
pub open spec fn toggle_step(menu_open: bool, mice: usize) -> ToggleStep {
    if menu_open {
        ToggleStep::Close
    } else if mice == 0 {
        ToggleStep::RejectWithoutMouse
    } else {
        ToggleStep::Ask
    }
}

/// Decides what the overlay's shortcut does to the menu.
pub fn toggle_menu(menu_open: bool, mice: usize) -> (result: ToggleStep)
    ensures
        result == toggle_step(menu_open, mice),
        result == (if menu_open {
            ToggleStep::Close
        } else if mice == 0 {
            ToggleStep::RejectWithoutMouse
        } else {
            ToggleStep::Ask
        }),
{
    if menu_open {
        ToggleStep::Close
    } else if mice == 0 {
        ToggleStep::RejectWithoutMouse
    } else {
        ToggleStep::Ask
    }
}

/// Whether a reply lets the menu have the mouse.
pub fn opens_menu(reply: ControlReply) -> (result: Result<(), ControlError>)
    ensures
        match result {
            Ok(()) => reply == ControlReply::Grab,
            Err(error) => reply != ControlReply::Grab && error@
                == "Replay menu returned an invalid open response"@,
        },
{
    if reply != ControlReply::Grab {
        return Err(ControlError::new("Replay menu returned an invalid open response"));
    }
    Ok(())
}

/// A number with its sign.
pub open spec fn signed_decimal(value: i32) -> Seq<char> {
    if value < 0 {
        seq!['-'] + text::decimal(-value as nat)
    } else {
        text::decimal(value as nat)
    }
}

fn signed_text(value: i32) -> (result: String)
    ensures
        result@ == signed_decimal(value),
{
    if value < 0 {
        let digits = text::decimal_chars((-(value as i64)) as u64);
        let mut chars: Vec<char> = Vec::new();
        chars.push('-');
        chars.extend_from_slice(digits.as_slice());
        assert(chars@ =~= seq!['-'] + digits@);
        text::string_of(chars.as_slice())
    } else {
        let digits = text::decimal_chars(value as u64);
        text::string_of(digits.as_slice())
    }
}

/// The text of the command that moves the menu's pointer.
pub open spec fn move_text(x: i32, y: i32) -> Seq<char> {
    "MENU MOVE "@ + signed_decimal(x) + " "@ + signed_decimal(y) + "\n"@
}

/// The text of the command that saves some seconds.
pub open spec fn save_text(seconds: u16) -> Seq<char> {
    "SAVE "@ + text::decimal(seconds as nat) + "\n"@
}

/// The command that moves the menu's pointer.
pub fn move_command(x: i32, y: i32) -> (result: String)
    ensures
        result@ == move_text(x, y),
        result@ == "MENU MOVE "@ + signed_decimal(x) + " "@ + signed_decimal(y) + "\n"@,
{
    let mut command = "MENU MOVE ".to_owned();
    command.append(signed_text(x).as_str());
    command.append(" ");
    command.append(signed_text(y).as_str());
    command.append("\n");
    command
}

/// The command that passes on an edge of the left button.
pub fn button_command(pressed: bool) -> (result: &'static str)
    ensures
        result@ == (if pressed {
            "MENU BUTTON 1\n"@
        } else {
            "MENU BUTTON 0\n"@
        }),
{
    if pressed {
        "MENU BUTTON 1\n"
    } else {
        "MENU BUTTON 0\n"
    }
}

/// The command that saves some seconds.
pub fn save_command(seconds: u16) -> (result: String)
    ensures
        result@ == save_text(seconds),
        result@ == "SAVE "@ + text::decimal(seconds as nat) + "\n"@,
{
    let mut command = "SAVE ".to_owned();
    let digits = text::decimal_chars(seconds as u64);
    command.append(text::string_of(digits.as_slice()).as_str());
    command.append("\n");
    command
}

/// The path of a user's control socket.
pub open spec fn control_socket(user: u32) -> Seq<char> {
    "/run/user/"@ + text::decimal(user as nat) + "/redunar/replay-control-v1.sock"@
}

/// Where a user's recorder listens.
pub fn control_path(user: u32) -> (result: String)
    ensures
        result@ == control_socket(user),
        result@ == "/run/user/"@ + text::decimal(user as nat)
            + "/redunar/replay-control-v1.sock"@,
{
    let mut path = "/run/user/".to_owned();
    let digits = text::decimal_chars(user as u64);
    path.append(text::string_of(digits.as_slice()).as_str());
    path.append("/redunar/replay-control-v1.sock");
    path
}

/// Whether a link belongs to a kind of input device.
pub fn device_link_name_matches(name: &str, suffix: &str) -> (result: bool)
    ensures
        result == (!name@.contains('/') && text::before_suffix(name@, suffix@) is Some),
{
    let chars = text::chars_of(name);
    let slash: usize = text::find_char(chars.as_slice(), '/');
    proof {
        text::lemma_first_index(chars@, '/');
    }
    if slash < chars.len() {
        assert(name@[slash as int] == '/');
        return false;
    }
    text::strip_suffix(chars.as_slice(), suffix).is_some()
}

/// Whether a device is a mouse that the menu can use.
pub fn is_usable_mouse(moves_across: bool, moves_down: bool, left_button: bool, nonblocking: bool) -> (result:
    bool)
    ensures
        result == (moves_across && moves_down && left_button && nonblocking),
{
    moves_across && moves_down && left_button && nonblocking
}

/// Input devices that were found, each once.
#[derive(Debug)]
pub struct InputDevices {
    limit: usize,
    devices: PathMap<()>,
}

/// What [`InputDevices`] hold.
#[verifier::ext_equal]
pub ghost struct DevicesView {
    pub limit: nat,
    /// In the order of their paths.
    pub devices: Seq<(Seq<u8>, ())>,
}

impl View for InputDevices {
    type V = DevicesView;

    closed spec fn view(&self) -> DevicesView {
        DevicesView { limit: self.limit as nat, devices: self.devices@ }
    }
}

/// Devices with one more, where it lies among the input devices and can be
/// used.
pub open spec fn with_device(devices: Seq<(Seq<u8>, ())>, path: Option<Seq<u8>>, usable: bool) -> Seq<
    (Seq<u8>, ()),
> {
    match path {
        Some(path) => if usable && paths::below(path, "/dev/input".spec_bytes()) {
            path_map::placed(devices, path, ())
        } else {
            devices
        },
        None => devices,
    }
}

impl InputDevices {
    pub fn new(limit: usize) -> (result: Self)
        ensures
            result@ == (DevicesView { limit: limit as nat, devices: Seq::empty() }),
    {
        InputDevices { limit, devices: PathMap::new() }
    }

    /// Takes a link of the right kind, with the place where it leads. Says
    /// whether the directory's next link is looked at.
    pub fn add(&mut self, path: Option<Vec<u8>>, usable: bool) -> (result: bool)
        ensures
            final(self)@ == (DevicesView {
                devices: with_device(
                    old(self)@.devices,
                    match path {
                        Some(path) => Some(path@),
                        None => None,
                    },
                    usable,
                ),
                ..old(self)@
            }),
            result == (final(self)@.devices.len() < final(self)@.limit),
    {
        if let Some(path) = path {
            if usable && paths::is_below(path.as_slice(), "/dev/input".as_bytes()) {
                let _ = self.devices.insert_if_absent(path, ());
            }
        }
        self.devices.len() < self.limit
    }

    /// The devices in the order of their paths.
    pub fn into_devices(self) -> (result: Vec<(Vec<u8>, ())>)
        ensures
            path_map::path_entries(result@) == self@.devices,
            path_map::in_order(self@.devices),
    {
        self.devices.into_entries()
    }

    /// The devices in the order of their paths, as many as the limit allows.
    pub fn into_limited(self) -> (result: Vec<(Vec<u8>, ())>)
        ensures
            path_map::path_entries(result@) == (if self@.devices.len() <= self@.limit {
                self@.devices
            } else {
                self@.devices.take(self@.limit as int)
            }),
            result@.len() <= self@.limit,
    {
        let limit: usize = self.limit;
        let mut devices = self.devices.into_entries();
        let ghost all = path_map::path_entries(devices@);
        devices.truncate(limit);
        assert(path_map::path_entries(devices@) =~= (if all.len() <= limit {
            all
        } else {
            all.take(limit as int)
        }));
        devices
    }
}

/// A motion is multiplied by eight and a half, and by three tenths more for
/// every count that the mouse moved along its faster axis, up to 32. Downwards
/// it is stretched by another 1.568. What comes out is the nearest whole count,
/// cut at 4096 either way.
pub proof fn motion_is_scaled_to_the_nearest(x: i32, y: i32)
    ensures
        ({
            let across = if x < 0 { -(x as int) } else { x as int };
            let down = if y < 0 { -(y as int) } else { y as int };
            let faster = if across < down { down } else { across };
            let speed = if faster < 32 { faster } else { 32 };
            let gain = 8_500 + 300 * speed;
            let exact_x = x * gain * 1_000;
            let exact_y = y * gain * 1_568;
            let moved_x = scaled(x, pointer_gain(x, y), 1_000);
            let moved_y = scaled(y, pointer_gain(x, y), POINTER_VERTICAL_RATIO_MILLI as int);
            &&& is_nearest(moved_x as int, exact_x)
            &&& is_nearest(moved_y as int, exact_y)
        }),
{
}

/// Whether a count is the nearest to some millionths, within 4096 either way.
pub open spec fn is_nearest(count: int, millionths: int) -> bool {
    &&& -4_096 <= count <= 4_096
    &&& count * 1_000_000 - millionths <= 500_000 || count == -4_096
    &&& millionths - count * 1_000_000 <= 500_000 || count == 4_096
    &&& count == 4_096 ==> millionths >= 4_095_500_000
    &&& count == -4_096 ==> millionths <= -4_095_500_000
}

/// A motion the other way goes as far the other way.
pub proof fn motion_is_the_same_both_ways(x: i32, y: i32)
    requires
        x > i32::MIN,
        y > i32::MIN,
    ensures
        ({
            let back = pointer_gain((-x) as i32, (-y) as i32);
            &&& back == pointer_gain(x, y)
            &&& scaled((-x) as i32, back, 1_000) == -scaled(x, back, 1_000)
            &&& scaled((-y) as i32, back, 1_568) == -scaled(y, back, 1_568)
        }),
{
    let gain = pointer_gain(x, y);
    assert((-x) * gain * 1_000 == -(x * gain * 1_000)) by (nonlinear_arith);
    assert((-y) * gain * 1_568 == -(y * gain * 1_568)) by (nonlinear_arith);
}

/// Motion adds up along its own axis until it is sent, to 4096 either way.
/// Nothing else moves the pointer.
pub proof fn motion_adds_up(motion: PendingMotion, value: i32, pressed: bool)
    requires
        -4_096 <= motion.x + value <= 4_096,
        -4_096 <= motion.y + value <= 4_096,
    ensures
        with_motion(motion, PointerEvent::MotionX(value)) == (PendingMotion {
            x: (motion.x + value) as i32,
            y: motion.y,
        }),
        with_motion(motion, PointerEvent::MotionY(value)) == (PendingMotion {
            x: motion.x,
            y: (motion.y + value) as i32,
        }),
        with_motion(motion, PointerEvent::LeftButton(pressed)) == motion,
{
}

/// However far the mouse moved, no more than 4096 counts wait either way.
pub proof fn waiting_motion_is_bounded(motion: PendingMotion, event: PointerEvent)
    requires
        -4_096 <= motion.x <= 4_096,
        -4_096 <= motion.y <= 4_096,
    ensures
        -4_096 <= with_motion(motion, event).x <= 4_096,
        -4_096 <= with_motion(motion, event).y <= 4_096,
        event matches PointerEvent::MotionX(value) ==> motion.x + value > 4_096 ==> with_motion(
            motion,
            event,
        ).x == 4_096,
        event matches PointerEvent::MotionX(value) ==> motion.x + value < -4_096 ==> with_motion(
            motion,
            event,
        ).x == -4_096,
{
}

/// Waiting motion is sent every eight milliseconds, an open menu is asked twice
/// a second whether it is still there, and closes after half a minute without
/// input. Each of these is due from its moment on, and not before.
pub proof fn menus_keep_their_times(since: u64, now: u64)
    ensures
        has_passed(since, now, MOTION_INTERVAL) <==> now - since >= 8 * 1_000_000,
        has_passed(since, now, MENU_PING_INTERVAL) <==> now - since >= 500 * 1_000_000,
        has_passed(since, now, MENU_INACTIVITY_TIMEOUT) <==> now - since >= 30 * 1_000_000_000,
{
}

/// A key is down from its press to its release, on the keyboard where it was
/// pressed. A repeated key changes nothing, and no key changes another.
pub proof fn keys_are_down_until_released(
    pressed: Set<(usize, u16)>,
    event: KeyEvent,
    other: (usize, u16),
)
    ensures
        event.value == 1 ==> after_key(pressed, event).contains((event.device, event.code)),
        event.value == 0 ==> !after_key(pressed, event).contains((event.device, event.code)),
        event.value != 0 && event.value != 1 ==> after_key(pressed, event) == pressed,
        other != (event.device, event.code) ==> (after_key(pressed, event).contains(other)
            <==> pressed.contains(other)),
{
}

/// Only the two keys of each of control, shift, alt and meta are modifiers.
pub proof fn four_pairs_of_keys_modify(code: u16)
    ensures
        modifier_key(code) <==> code == 29 || code == 97 || code == 42 || code == 54 || code == 56
            || code == 100 || code == 125 || code == 126,
{
}

/// Escape closes an open menu and does nothing else.
pub proof fn escape_closes_the_menu(
    pressed: Set<(usize, u16)>,
    device: usize,
    bindings: Seq<KeyChord>,
)
    requires
        !is_down(pressed, 1),
    ensures
        ({
            let event = KeyEvent { device, code: 1, value: 1 };
            let decision = key_decision(pressed, event, bindings, true);
            decision.close_menu && decision.action is None
        }),
{
}

/// An answer that starts with `ERROR ` carries its explanation, up to where only
/// spaces follow.
pub proof fn errors_are_passed_on(explanation: Seq<char>)
    ensures
        control_reply("ERROR "@ + explanation) == Err::<ControlReply, Seq<char>>(
            text::trimmed_end(explanation),
        ),
{
    let response = "ERROR "@ + explanation;
    assert(response.take("ERROR "@.len() as int) =~= "ERROR "@);
    assert(response.skip("ERROR "@.len() as int) =~= explanation);
}

/// Any other answer is one of three, to the letter.
pub proof fn answers_are_taken_to_the_letter(response: Seq<char>)
    ensures
        control_reply(response) == Ok::<ControlReply, Seq<char>>(ControlReply::Done) <==> response
            == "OK\n"@,
        control_reply(response) == Ok::<ControlReply, Seq<char>>(ControlReply::Grab) <==> response
            == "OK GRAB\n"@,
        control_reply(response) == Ok::<ControlReply, Seq<char>>(ControlReply::Release)
            <==> response == "OK RELEASE\n"@,
{
    reveal_strlit("ERROR ");
    reveal_strlit("OK\n");
    reveal_strlit("OK GRAB\n");
    reveal_strlit("OK RELEASE\n");
    assert("OK\n"@.take(6)[0] != 'E' || "OK\n"@.len() < 6);
    assert("OK GRAB\n"@.take(6)[0] == 'O');
    assert("OK RELEASE\n"@.take(6)[0] == 'O');
    assert("ERROR "@[0] == 'E');
    assert("OK GRAB\n"@[3] != "OK RELEASE\n"@[3]);
}

/// Devices are taken from below the input directory only.
pub proof fn devices_lie_below_the_input_directory(
    devices: Seq<(Seq<u8>, ())>,
    path: Seq<u8>,
    usable: bool,
)
    requires
        !usable || !paths::below(path, "/dev/input".spec_bytes()),
    ensures
        with_device(devices, Some(path), usable) == devices,
        with_device(devices, None, usable) == devices,
{
}

/// Input events of the first type are keys, those of the second the motion of a
/// mouse: across with the code zero, down with one. The left button is the key
/// 272, pressed with one and released with zero.
pub proof fn input_events_are_told_by_their_numbers(device: usize, code: u16, value: i32)
    ensures
        decoded_key(device, 1, code, value) == Some(KeyEvent { device, code, value }),
        decoded_key(device, 2, code, value) is None,
        decoded_pointer(2, 0, value) == Some(PointerEvent::MotionX(value)),
        decoded_pointer(2, 1, value) == Some(PointerEvent::MotionY(value)),
        code > 1 ==> decoded_pointer(2, code, value) is None,
        decoded_pointer(1, 272, 1) == Some(PointerEvent::LeftButton(true)),
        decoded_pointer(1, 272, 0) == Some(PointerEvent::LeftButton(false)),
        code != 272 ==> decoded_pointer(1, code, value) is None,
        value != 0 && value != 1 ==> decoded_pointer(1, code, value) is None,
{
}

/// Commands to the recorder are single lines of words: what to do, and the
/// numbers for it.
pub proof fn commands_are_lines_of_words(x: i32, y: i32, seconds: u16)
    ensures
        move_text(x, y) == text::joined_fields(
            seq!["MENU"@, "MOVE"@, signed_decimal(x), signed_decimal(y)],
            ' ',
        ).push('\n'),
        save_text(seconds) == text::joined_fields(
            seq!["SAVE"@, text::decimal(seconds as nat)],
            ' ',
        ).push('\n'),
{
    reveal_strlit("MENU");
    reveal_strlit("MOVE");
    reveal_strlit("MENU MOVE ");
    reveal_strlit("SAVE");
    reveal_strlit("SAVE ");
    reveal_strlit(" ");
    reveal_strlit("\n");
    let four = seq!["MENU"@, "MOVE"@, signed_decimal(x), signed_decimal(y)];
    let three = seq!["MENU"@, "MOVE"@, signed_decimal(x)];
    let two = seq!["MENU"@, "MOVE"@];
    assert(four.drop_last() =~= three);
    assert(three.drop_last() =~= two);
    assert(two.drop_last() =~= seq!["MENU"@]);
    assert(text::joined_fields(seq!["MENU"@], ' ') =~= "MENU"@);
    assert(text::joined_fields(two, ' ') =~= "MENU"@ + seq![' '] + "MOVE"@);
    assert(text::joined_fields(three, ' ') =~= "MENU"@ + seq![' '] + "MOVE"@ + seq![' ']
        + signed_decimal(x));
    assert(text::joined_fields(four, ' ') =~= "MENU"@ + seq![' '] + "MOVE"@ + seq![' ']
        + signed_decimal(x) + seq![' '] + signed_decimal(y));
    assert(move_text(x, y) =~= text::joined_fields(four, ' ').push('\n'));
    let save = seq!["SAVE"@, text::decimal(seconds as nat)];
    assert(save.drop_last() =~= seq!["SAVE"@]);
    assert(text::joined_fields(seq!["SAVE"@], ' ') =~= "SAVE"@);
    assert(text::joined_fields(save, ' ') =~= "SAVE"@ + seq![' '] + text::decimal(seconds as nat));
    assert(save_text(seconds) =~= text::joined_fields(save, ' ').push('\n'));
}

/// A number below zero is written behind a minus sign.
pub proof fn signs_are_written(value: i32)
    ensures
        value >= 0 ==> signed_decimal(value) == text::decimal(value as nat),
        value < 0 ==> signed_decimal(value) == "-"@ + text::decimal((-value) as nat),
{
    reveal_strlit("-");
    assert("-"@ =~= seq!['-']);
}

/// A user's recorder listens below the user's own runtime directory.
pub proof fn users_have_their_own_socket(user: u32, other: u32)
    requires
        user != other,
    ensures
        control_socket(user) != control_socket(other),
        control_socket(user) == "/run/user/"@ + text::decimal(user as nat)
            + "/redunar/replay-control-v1.sock"@,
{
    let start = "/run/user/"@;
    let end = "/redunar/replay-control-v1.sock"@;
    let first = control_socket(user);
    let second = control_socket(other);
    text::decimal_round_trip(user as nat);
    text::decimal_round_trip(other as nat);
    if first == second {
        let digits = text::decimal(user as nat);
        let others = text::decimal(other as nat);
        assert(first.len() == start.len() + digits.len() + end.len());
        assert(second.len() == start.len() + others.len() + end.len());
        assert(first.subrange(start.len() as int, start.len() + digits.len() as int) =~= digits);
        assert(second.subrange(start.len() as int, start.len() + others.len() as int) =~= others);
    }
}

/// The shortcut closes a menu that is open, whatever mice there are, and opens
/// one only where there is a mouse to point with.
pub proof fn menus_need_a_mouse(mice: usize)
    ensures
        toggle_step(true, mice) == ToggleStep::Close,
        toggle_step(false, mice) == ToggleStep::Ask <==> mice > 0,
        toggle_step(false, 0) == ToggleStep::RejectWithoutMouse,
{
}

/// Sixteen keyboards and eight mice are listened to at most, found among the
/// first 64 links.
pub proof fn listened_devices_are_bounded()
    ensures
        MAX_KEYBOARDS == 16,
        MAX_MICE == 8,
        MAX_DEVICE_LINKS_SCANNED == 64,
{
}

} // verus!
