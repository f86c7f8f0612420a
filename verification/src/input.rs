//! Keyboard state: which keys are held, whether the viewer is paused, and
//! what the held keys ask of the camera.

use vstd::prelude::*;

verus! {

/// The keys the viewer reacts to; any other key is kept by its code.
#[derive(Clone, Copy, PartialEq, Eq, Structural, Debug)]
pub enum Key {
    W,
    A,
    S,
    D,
    Space,
    LShift,
    Escape,
    Q,
    Other(u32),
}

/// Whether a key went down or came up.
#[derive(Clone, Copy, PartialEq, Eq, Structural, Debug)]
pub enum KeyState {
    Pressed,
    Released,
}

/// What the caller must do after a key event.
#[derive(Clone, Copy, PartialEq, Eq, Structural, Debug)]
pub enum KeyAction {
    /// Nothing beyond the change of state.
    Nothing,
    /// Close the viewer.
    Exit,
    /// The viewer was paused (`true`) or resumed (`false`): show and free the
    /// cursor while paused, hide and confine it otherwise.
    SetPaused(bool),
}

/// A camera movement that a held key asks for.
#[derive(Clone, Copy, PartialEq, Eq, Structural, Debug)]
pub enum Movement {
    Forward,
    Left,
    Backward,
    Right,
    Up,
    Down,
}

/// The movement a key asks for, if any.
pub open spec fn spec_key_movement(key: Key) -> Option<Movement> {
    match key {
        Key::W => Some(Movement::Forward),
        Key::A => Some(Movement::Left),
        Key::S => Some(Movement::Backward),
        Key::D => Some(Movement::Right),
        Key::Space => Some(Movement::Up),
        Key::LShift => Some(Movement::Down),
        _ => None,
    }
}

/// The movements that the keys of `keys` ask for, in the order of `keys`.
pub open spec fn movements_of(keys: Seq<Key>) -> Seq<Movement>
    decreases keys.len(),
{
    if keys.len() == 0 {
        Seq::empty()
    } else {
        let earlier = movements_of(keys.drop_last());
        match spec_key_movement(keys.last()) {
            Some(m) => earlier.push(m),
            None => earlier,
        }
    }
}

/// No key occurs twice in `keys`.
pub open spec fn no_duplicates(keys: Seq<Key>) -> bool {
    forall|i: int, j: int| 0 <= i < keys.len() && 0 <= j < keys.len() && i != j ==> keys[i] != keys[j]
}

/// The held keys after `key` went down: it is added at the end unless it is
/// held already.
pub open spec fn after_press(keys: Seq<Key>, key: Key) -> Seq<Key> {
    if keys.contains(key) {
        keys
    } else {
        keys.push(key)
    }
}

/// The held keys after `key` came up: it is taken out where it stands.
pub open spec fn after_release(keys: Seq<Key>, key: Key) -> Seq<Key> {
    if keys.contains(key) {
        keys.remove(keys.index_of(key))
    } else {
        keys
    }
}

/// The input state as the contracts see it.
pub struct InputView {
    pub held: Seq<Key>,
    pub paused: bool,
}

/// The state after a key event.
pub open spec fn next_input(s: InputView, key: Key, state: KeyState) -> InputView {
    match state {
        KeyState::Pressed => InputView { held: after_press(s.held, key), paused: s.paused },
        KeyState::Released => InputView {
            held: after_release(s.held, key),
            paused: if key == Key::Escape {
                !s.paused
            } else {
                s.paused
            },
        },
    }
}

/// What a key event asks of the caller: `Q` going down asks to exit,
/// `Escape` coming up reports the new pause.
pub open spec fn key_action(s: InputView, key: Key, state: KeyState) -> KeyAction {
    match state {
        KeyState::Pressed => if key == Key::Q {
            KeyAction::Exit
        } else {
            KeyAction::Nothing
        },
        KeyState::Released => if key == Key::Escape {
            KeyAction::SetPaused(!s.paused)
        } else {
            KeyAction::Nothing
        },
    }
}

/// A key that was not held, pressed and then released, leaves the held keys
/// as they were; the pause is as it was unless the key is `Escape`, which
/// toggles it.
pub proof fn lemma_press_release(s: InputView, key: Key)
    requires
        !s.held.contains(key),
    ensures
        next_input(next_input(s, key, KeyState::Pressed), key, KeyState::Released).held == s.held,
        next_input(next_input(s, key, KeyState::Pressed), key, KeyState::Released).paused == (if key
            == Key::Escape {
            !s.paused
        } else {
            s.paused
        }),
{
    let pushed = s.held.push(key);
    assert(pushed[s.held.len() as int] == key);
    assert(pushed.contains(key));
    let k = pushed.index_of(key);
    if k != s.held.len() {
        assert(s.held[k] == key);
    }
    assert(pushed.remove(k) =~= s.held);
}

/// Releasing `Escape` twice leaves the pause as it was.
pub proof fn lemma_escape_twice(s: InputView)
    ensures
        next_input(next_input(s, Key::Escape, KeyState::Released), Key::Escape, KeyState::Released).paused
            == s.paused,
{
}

/// A key is held after it went down and, in a state where no key is held
/// twice, not held after it came up; neither event makes a key held twice.
pub proof fn lemma_held_after_event(s: InputView, key: Key, state: KeyState)
    requires
        no_duplicates(s.held),
    ensures
        no_duplicates(next_input(s, key, state).held),
        state == KeyState::Pressed ==> next_input(s, key, state).held.contains(key),
        state == KeyState::Released ==> !next_input(s, key, state).held.contains(key),
{
    let held = s.held;
    match state {
        KeyState::Pressed => {
            if !held.contains(key) {
                assert(held.push(key)[held.len() as int] == key);
            }
        },
        KeyState::Released => {
            if held.contains(key) {
                let r = held.index_of(key);
                let after = held.remove(r);
                assert forall|a: int| 0 <= a < after.len() implies after[a] != key by {
                    let a0 = if a < r { a } else { a + 1 };
                    assert(after[a] == held[a0]);
                }
                lemma_remove_keeps_no_duplicates(held, r);
            }
        },
    }
}

/// Taking one key out of a list where no key occurs twice leaves a list
/// where no key occurs twice.
proof fn lemma_remove_keeps_no_duplicates(keys: Seq<Key>, r: int)
    requires
        no_duplicates(keys),
        0 <= r < keys.len(),
    ensures
        no_duplicates(keys.remove(r)),
{
    let after = keys.remove(r);
    assert forall|a: int, b: int| 0 <= a < after.len() && 0 <= b < after.len() && a != b implies after[a]
        != after[b] by {
        let a0 = if a < r { a } else { a + 1 };
        let b0 = if b < r { b } else { b + 1 };
        assert(after[a] == keys[a0]);
        assert(after[b] == keys[b0]);
    }
}

/// `key` is one of the six keys that move the camera.
pub open spec fn is_movement_key(key: Key) -> bool {
    key == Key::W || key == Key::A || key == Key::S || key == Key::D || key == Key::Space || key == Key::LShift
}

/// Only W, A, S, D, Space and LShift move the camera: forward, left,
/// backward, right, up and down; every other key moves nothing.
pub proof fn lemma_movement_keys(key: Key)
    ensures
        spec_key_movement(key) is Some <==> is_movement_key(key),
        key == Key::W ==> spec_key_movement(key) == Some(Movement::Forward),
        key == Key::A ==> spec_key_movement(key) == Some(Movement::Left),
        key == Key::S ==> spec_key_movement(key) == Some(Movement::Backward),
        key == Key::D ==> spec_key_movement(key) == Some(Movement::Right),
        key == Key::Space ==> spec_key_movement(key) == Some(Movement::Up),
        key == Key::LShift ==> spec_key_movement(key) == Some(Movement::Down),
{
}

/// Held keys none of which moves the camera ask for no movement, and each
/// key added that moves the camera adds its movement at the end.
pub proof fn lemma_movements_of_keys(keys: Seq<Key>, key: Key)
    ensures
        (forall|i: int| 0 <= i < keys.len() ==> !is_movement_key(#[trigger] keys[i])) ==> movements_of(keys)
            == Seq::<Movement>::empty(),
        !is_movement_key(key) ==> movements_of(keys.push(key)) == movements_of(keys),
        is_movement_key(key) ==> movements_of(keys.push(key)).len() == movements_of(keys).len() + 1,
    decreases keys.len(),
{
    assert(keys.push(key).drop_last() =~= keys);
    if keys.len() > 0 {
        lemma_movements_of_keys(keys.drop_last(), keys.last());
        if forall|i: int| 0 <= i < keys.len() ==> !is_movement_key(#[trigger] keys[i]) {
            assert(!is_movement_key(keys[keys.len() - 1]));
            assert forall|i: int| 0 <= i < keys.drop_last().len() implies !is_movement_key(
                #[trigger] keys.drop_last()[i],
            ) by {
                assert(keys.drop_last()[i] == keys[i]);
            }
            assert(keys.drop_last().push(keys.last()) =~= keys);
        }
    }
}

/// Q going down always asks to exit, paused or not; any other key going down
/// asks for nothing; Escape coming up reports the pause toggled; any other
/// key coming up asks for nothing. So the action depends on the pause only
/// for Escape coming up.
pub proof fn lemma_key_actions(s: InputView, t: InputView, key: Key)
    ensures
        key_action(s, Key::Q, KeyState::Pressed) == KeyAction::Exit,
        key != Key::Q ==> key_action(s, key, KeyState::Pressed) == KeyAction::Nothing,
        key_action(s, Key::Escape, KeyState::Released) == KeyAction::SetPaused(!s.paused),
        key != Key::Escape ==> key_action(s, key, KeyState::Released) == KeyAction::Nothing,
        key_action(s, key, KeyState::Pressed) == key_action(t, key, KeyState::Pressed),
        key != Key::Escape ==> key_action(s, key, KeyState::Released) == key_action(t, key, KeyState::Released),
{
}

/// The keys held, in the order they went down, and whether the viewer is
/// paused.
pub struct InputState {
    held: Vec<Key>,
    paused: bool,
}

impl View for InputState {
    type V = InputView;

    closed spec fn view(&self) -> InputView {
        InputView { held: self.held@, paused: self.paused }
    }
}

/// The movement a key asks for, if any.
pub fn key_movement(key: Key) -> (m: Option<Movement>)
    ensures
        m == spec_key_movement(key),
{
    match key {
        Key::W => Some(Movement::Forward),
        Key::A => Some(Movement::Left),
        Key::S => Some(Movement::Backward),
        Key::D => Some(Movement::Right),
        Key::Space => Some(Movement::Up),
        Key::LShift => Some(Movement::Down),
        _ => None,
    }
}

/// The position of `key` in `keys`, if it occurs.
fn position_of(keys: &Vec<Key>, key: Key) -> (pos: Option<usize>)
    ensures
        match pos {
            Some(i) => i < keys@.len() && keys@[i as int] == key,
            None => !keys@.contains(key),
        },
{
    let mut i: usize = 0;
    while i < keys.len()
        invariant
            i <= keys@.len(),
            forall|j: int| 0 <= j < i ==> keys@[j] != key,
        decreases keys@.len() - i,
    {
        if keys[i] == key {
            return Some(i);
        }
        i = i + 1;
    }
    None
}

impl InputState {
    /// The state is well formed: no key is held twice.
    pub open spec fn wf(&self) -> bool {
        no_duplicates(self@.held)
    }

    /// No key held, not paused.
    pub fn new() -> (s: InputState)
        ensures
            s.wf(),
            s@.held == Seq::<Key>::empty(),
            !s@.paused,
    {
        InputState { held: Vec::new(), paused: false }
    }

    /// Whether the viewer is paused; mouse movement turns the camera only
    /// while it is not.
    pub fn is_paused(&self) -> (p: bool)
        ensures
            p == self@.paused,
    {
        self.paused
    }

    /// Whether `key` is held.
    pub fn is_held(&self, key: Key) -> (b: bool)
        ensures
            b == self@.held.contains(key),
    {
        position_of(&self.held, key).is_some()
    }

    /// The keys held, in the order they went down.
    pub fn held_keys(&self) -> (keys: Vec<Key>)
        ensures
            keys@ == self@.held,
    {
        self.held.clone()
    }

    /// Takes a key event. A key that goes down is added to the held keys,
    /// unless held already, and `Q` asks to exit; a key that comes up is
    /// taken out of them, and `Escape` toggles the pause.
    pub fn handle_key(&mut self, key: Key, state: KeyState) -> (action: KeyAction)
        requires
            old(self).wf(),
        ensures
            final(self).wf(),
            final(self)@ == next_input(old(self)@, key, state),
            action == key_action(old(self)@, key, state),
    {
        let ghost old_held = self.held@;
        proof {
            lemma_held_after_event(self@, key, state);
        }
        match state {
            KeyState::Released => {
                match position_of(&self.held, key) {
                    Some(i) => {
                        self.held.remove(i);
                        proof {
                            assert(old_held.contains(key));
                            let k = old_held.index_of(key);
                            assert(old_held[k] == key);
                            assert(k == i);
                        }
                    },
                    None => {},
                }
                if key == Key::Escape {
                    self.paused = !self.paused;
                    KeyAction::SetPaused(self.paused)
                } else {
                    KeyAction::Nothing
                }
            },
            KeyState::Pressed => {
                if position_of(&self.held, key).is_none() {
                    self.held.push(key);
                }
                if key == Key::Q {
                    KeyAction::Exit
                } else {
                    KeyAction::Nothing
                }
            },
        }
    }

    /// The movements that the held keys ask for, in the order the keys went
    /// down; keys that move nothing are left out.
    pub fn movements(&self) -> (ms: Vec<Movement>)
        ensures
            ms@ == movements_of(self@.held),
    {
        let mut ms: Vec<Movement> = Vec::new();
        let mut i: usize = 0;
        assert(self.held@.take(0) =~= Seq::<Key>::empty());
        while i < self.held.len()
            invariant
                i <= self.held@.len(),
                ms@ == movements_of(self.held@.take(i as int)),
            decreases self.held@.len() - i,
        {
            let key = self.held[i];
            assert(self.held@.take(i + 1).drop_last() =~= self.held@.take(i as int));
            match key_movement(key) {
                Some(m) => {
                    ms.push(m);
                },
                None => {},
            }
            i = i + 1;
        }
        assert(self.held@.take(self.held@.len() as int) =~= self.held@);
        ms
    }
}

} // verus!
