//! Input state as the simulation core reads it: per-key and per-button
//! press state with edge detection, and take-latest event buffering.
//!
//! Keys and buttons are identified by their platform key codes, held as
//! plain integers. State maps are small association lists with distinct
//! keys, so every lookup and update is specified exactly.

use vstd::prelude::*;

verus! {

/// Key code of the space bar.
pub const KEY_SPACE: u32 = 32;

/// Key code of the left shift key.
pub const KEY_LSHIFT: u32 = 1073742049;

/// Key code of the letter P.
pub const KEY_P: u32 = 112;

/// Key code of the letter W.
pub const KEY_W: u32 = 119;

/// Key code of the letter A.
pub const KEY_A: u32 = 97;

/// Key code of the letter S.
pub const KEY_S: u32 = 115;

/// Key code of the letter D.
pub const KEY_D: u32 = 100;

/// Button code of the left mouse button.
pub const MOUSE_LEFT: u32 = 1;

/// Button code of the middle mouse button.
pub const MOUSE_MIDDLE: u32 = 2;

/// Button code of the right mouse button.
pub const MOUSE_RIGHT: u32 = 3;

/// The held-or-edge state of one key or button over the current tick.
#[derive(Clone, Copy, Debug, PartialEq, Eq, Structural)]
pub enum ButtonState {
    KeptPressed,
    JustPressed,
    KeptReleased,
    JustReleased,
}

impl ButtonState {
    /// Whether the key went down this tick.
    pub fn just_pressed(self) -> (r: bool)
        ensures
            r == (self is JustPressed),
    {
        matches!(self, ButtonState::JustPressed)
    }

    /// Whether the key was already down before this tick.
    pub fn kept_pressed(self) -> (r: bool)
        ensures
            r == (self is KeptPressed),
    {
        matches!(self, ButtonState::KeptPressed)
    }

    /// Whether the key is down.
    pub fn pressed(self) -> (r: bool)
        ensures
            r == (self is KeptPressed || self is JustPressed),
    {
        self.kept_pressed() || self.just_pressed()
    }

    /// Whether the key is up.
    pub fn released(self) -> (r: bool)
        ensures
            r == (self is KeptReleased || self is JustReleased),
    {
        matches!(self, ButtonState::KeptReleased) || matches!(self, ButtonState::JustReleased)
    }
}

impl Default for ButtonState {
    fn default() -> (r: Self)
        ensures
            r == ButtonState::KeptReleased,
    {
        ButtonState::KeptReleased
    }
}

/// A raw transition reported by the platform: a press or a release.
#[derive(Clone, Copy, Debug, PartialEq, Eq, Structural)]
pub enum ButtonStateEvent {
    Press,
    Release,
}

/// A keyed press-or-release event.
pub trait ButtonEvent: Sized {
    /// The event's key code, in contracts.
    spec fn key_spec(&self) -> u32;

    /// The event's transition, in contracts.
    spec fn state_spec(&self) -> ButtonStateEvent;

    /// The event's key code.
    fn key(&self) -> (k: u32)
        ensures
            k == self.key_spec(),
    ;

    /// The event's transition.
    fn state(&self) -> (s: ButtonStateEvent)
        ensures
            s == self.state_spec(),
    ;
}

/// A key press or release.
#[derive(Clone, Copy, Debug, PartialEq, Eq, Structural)]
pub struct KeyboardEvent {
    pub key: u32,
    pub state: ButtonStateEvent,
}

impl ButtonEvent for KeyboardEvent {
    open spec fn key_spec(&self) -> u32 {
        self.key
    }

    open spec fn state_spec(&self) -> ButtonStateEvent {
        self.state
    }

    fn key(&self) -> u32 {
        self.key
    }

    fn state(&self) -> ButtonStateEvent {
        self.state
    }
}

/// A mouse button press or release.
#[derive(Clone, Copy, Debug, PartialEq, Eq, Structural)]
pub struct MouseButtonEvent {
    pub button: u32,
    pub state: ButtonStateEvent,
}

impl ButtonEvent for MouseButtonEvent {
    open spec fn key_spec(&self) -> u32 {
        self.button
    }

    open spec fn state_spec(&self) -> ButtonStateEvent {
        self.state
    }

    fn key(&self) -> u32 {
        self.button
    }

    fn state(&self) -> ButtonStateEvent {
        self.state
    }
}

/// Whether the keys of an association list are pairwise distinct.
pub open spec fn keys_distinct<V>(s: Seq<(u32, V)>) -> bool {
    forall|i: int, j: int| 0 <= i < j < s.len() ==> (#[trigger] s[i]).0 != (#[trigger] s[j]).0
}

/// The index of `key` in the list, or -1 when absent.
pub open spec fn find_idx<V>(s: Seq<(u32, V)>, key: u32) -> int
    decreases s.len(),
{
    if s.len() == 0 {
        -1
    } else if s[0].0 == key {
        0
    } else {
        let r = find_idx(s.subrange(1, s.len() as int), key);
        if r < 0 {
            -1
        } else {
            r + 1
        }
    }
}

/// The value stored under `key`, if any.
pub open spec fn spec_lookup<V>(s: Seq<(u32, V)>, key: u32) -> Option<V> {
    if find_idx(s, key) >= 0 {
        Some(s[find_idx(s, key)].1)
    } else {
        None
    }
}

/// What `find_idx` finds: a position holding `key`, or proof that no
/// position holds it.
pub proof fn lemma_find_idx_props<V>(s: Seq<(u32, V)>, key: u32)
    ensures
        find_idx(s, key) == -1 ==> forall|i: int| 0 <= i < s.len() ==> (#[trigger] s[i]).0 != key,
        find_idx(s, key) != -1 ==> 0 <= find_idx(s, key) < s.len() && s[find_idx(s, key)].0 == key,
    decreases s.len(),
{
    if s.len() > 0 && s[0].0 != key {
        lemma_find_idx_props(s.subrange(1, s.len() as int), key);
        let tail = s.subrange(1, s.len() as int);
        if find_idx(tail, key) == -1 {
            assert forall|i: int| 0 <= i < s.len() implies (#[trigger] s[i]).0 != key by {
                if i > 0 {
                    assert(tail[i - 1] == s[i]);
                }
            }
        } else {
            assert(tail[find_idx(tail, key)] == s[find_idx(tail, key) + 1]);
        }
    }
}

/// `find_idx` returns the first position holding `key`.
pub proof fn lemma_find_idx_first<V>(s: Seq<(u32, V)>, key: u32, i: int)
    requires
        0 <= i < s.len(),
        s[i].0 == key,
        forall|j: int| 0 <= j < i ==> (#[trigger] s[j]).0 != key,
    ensures
        find_idx(s, key) == i,
    decreases s.len(),
{
    if i == 0 {
    } else {
        let tail = s.subrange(1, s.len() as int);
        assert(tail[i - 1] == s[i]);
        assert forall|j: int| 0 <= j < i - 1 implies (#[trigger] tail[j]).0 != key by {
            assert(tail[j] == s[j + 1]);
        }
        lemma_find_idx_first(tail, key, i - 1);
    }
}

/// Two lists with pointwise equal keys are searched identically.
pub proof fn lemma_find_idx_frame<V>(s1: Seq<(u32, V)>, s2: Seq<(u32, V)>, key: u32)
    requires
        s1.len() == s2.len(),
        forall|i: int| 0 <= i < s1.len() ==> (#[trigger] s1[i]).0 == (#[trigger] s2[i]).0,
    ensures
        find_idx(s1, key) == find_idx(s2, key),
    decreases s1.len(),
{
    if s1.len() > 0 {
        let t1 = s1.subrange(1, s1.len() as int);
        let t2 = s2.subrange(1, s2.len() as int);
        assert forall|i: int| 0 <= i < t1.len() implies (#[trigger] t1[i]).0 == (#[trigger] t2[i]).0 by {
            assert(t1[i] == s1[i + 1] && t2[i] == s2[i + 1]);
        }
        lemma_find_idx_frame(t1, t2, key);
    }
}

/// How appending one entry changes a search.
pub proof fn lemma_find_idx_push<V>(s: Seq<(u32, V)>, x: (u32, V), key: u32)
    ensures
        find_idx(s, key) >= 0 ==> find_idx(s.push(x), key) == find_idx(s, key),
        find_idx(s, key) == -1 && x.0 == key ==> find_idx(s.push(x), key) == s.len(),
        find_idx(s, key) == -1 && x.0 != key ==> find_idx(s.push(x), key) == -1,
    decreases s.len(),
{
    if s.len() == 0 {
        assert(s.push(x)[0] == x);
        if x.0 != key {
            assert(s.push(x).subrange(1, 1) =~= Seq::<(u32, V)>::empty());
            assert(find_idx(Seq::<(u32, V)>::empty(), key) == -1);
            assert(find_idx(s.push(x), key) == -1);
        } else {
            assert(find_idx(s.push(x), key) == 0);
        }
    } else {
        assert(s.push(x)[0] == s[0]);
        if s[0].0 != key {
            let tail = s.subrange(1, s.len() as int);
            let pushed_tail = s.push(x).subrange(1, s.len() as int + 1);
            assert(pushed_tail =~= tail.push(x));
            lemma_find_idx_push(tail, x, key);
            assert(find_idx(s.push(x), key) == (if find_idx(pushed_tail, key) < 0 {
                -1int
            } else {
                find_idx(pushed_tail, key) + 1
            }));
            assert(find_idx(s, key) == (if find_idx(tail, key) < 0 {
                -1int
            } else {
                find_idx(tail, key) + 1
            }));
        } else {
            assert(find_idx(s, key) == 0);
            assert(find_idx(s.push(x), key) == 0);
        }
    }
}

/// Removing an entry with a different key leaves a search's result value
/// unchanged.
pub proof fn lemma_lookup_remove<V>(s: Seq<(u32, V)>, i: int, key: u32)
    requires
        keys_distinct(s),
        0 <= i < s.len(),
        s[i].0 != key,
    ensures
        spec_lookup(s.remove(i), key) == spec_lookup(s, key),
{
    let s2 = s.remove(i);
    lemma_find_idx_props(s, key);
    lemma_find_idx_props(s2, key);
    if find_idx(s, key) >= 0 {
        let j = find_idx(s, key);
        if j < i {
            assert(s2[j] == s[j]);
            assert forall|k: int| 0 <= k < j implies (#[trigger] s2[k]).0 != key by {
                assert(s2[k] == s[k]);
                lemma_find_idx_props(s, key);
                if s[k].0 == key {
                    lemma_find_idx_first(s, key, k);
                }
            }
            lemma_find_idx_first(s2, key, j);
        } else {
            assert(s2[j - 1] == s[j]);
            assert forall|k: int| 0 <= k < j - 1 implies (#[trigger] s2[k]).0 != key by {
                if k < i {
                    assert(s2[k] == s[k]);
                    if s[k].0 == key {
                        lemma_find_idx_first(s, key, k);
                    }
                } else {
                    assert(s2[k] == s[k + 1]);
                    if s[k + 1].0 == key {
                        lemma_find_idx_first(s, key, k + 1);
                    }
                }
            }
            lemma_find_idx_first(s2, key, j - 1);
        }
    } else {
        if find_idx(s2, key) >= 0 {
            let j = find_idx(s2, key);
            if j < i {
                assert(s2[j] == s[j]);
            } else {
                assert(s2[j] == s[j + 1]);
            }
        }
    }
}

/// The position of `key` in `entries`, or `None` when absent.
fn assoc_find_idx<V: Copy>(entries: &Vec<(u32, V)>, key: u32) -> (r: Option<usize>)
    ensures
        r matches Some(i) ==> i == find_idx(entries@, key),
        r is None ==> find_idx(entries@, key) == -1,
{
    let mut i: usize = 0;
    while i < entries.len()
        invariant
            i <= entries.len(),
            forall|j: int| 0 <= j < i ==> (#[trigger] entries@[j]).0 != key,
        decreases entries.len() - i,
    {
        if entries[i].0 == key {
            proof {
                lemma_find_idx_first(entries@, key, i as int);
            }
            return Some(i);
        }
        i = i + 1;
    }
    proof {
        // The scan saw every entry, so a successful search would
        // contradict the loop invariant.
        lemma_find_idx_props(entries@, key);
        if find_idx(entries@, key) != -1 {
            assert(false);
        }
    }
    None
}

/// Insert or replace the entry under `key`.
fn assoc_set<V: Copy>(entries: &mut Vec<(u32, V)>, key: u32, v: V)
    requires
        keys_distinct(old(entries)@),
    ensures
        keys_distinct(final(entries)@),
        spec_lookup(final(entries)@, key) == Some(v),
        forall|k: u32|
            k != key ==> #[trigger] spec_lookup(final(entries)@, k) == spec_lookup(old(entries)@, k),
{
    let idx = assoc_find_idx(entries, key);
    match idx {
        Some(i) => {
            proof {
                lemma_find_idx_props(entries@, key);
            }
            entries.set(i, (key, v));
            proof {
                let prev = old(entries)@;
                let cur = entries@;
                assert(prev[i as int].0 == key);
                assert forall|j: int| 0 <= j < prev.len()
                    implies (#[trigger] prev[j]).0 == (#[trigger] cur[j]).0 by {}
                assert forall|i2: int, j2: int| 0 <= i2 < j2 < cur.len()
                    implies (#[trigger] cur[i2]).0 != (#[trigger] cur[j2]).0 by {
                    assert(cur[i2].0 == prev[i2].0 && cur[j2].0 == prev[j2].0);
                }
                assert forall|k: u32| true
                    implies #[trigger] spec_lookup(cur, k) == (if k == key {
                        Some(v)
                    } else {
                        spec_lookup(prev, k)
                    }) by {
                    lemma_find_idx_frame(prev, cur, k);
                    lemma_find_idx_props(prev, k);
                    if k == key {
                        lemma_find_idx_first(prev, key, i as int);
                    } else if find_idx(prev, k) >= 0 {
                        let j = find_idx(prev, k);
                        assert(prev[j].0 == k);
                        assert(j != i as int);
                        assert(cur[j] == prev[j]);
                    }
                }
            }
        },
        None => {
            proof {
                lemma_find_idx_props(entries@, key);
            }
            entries.push((key, v));
            proof {
                let prev = old(entries)@;
                let cur = entries@;
                assert(cur =~= prev.push((key, v)));
                assert forall|k: u32| true
                    implies #[trigger] spec_lookup(cur, k) == (if k == key {
                        Some(v)
                    } else {
                        spec_lookup(prev, k)
                    }) by {
                    lemma_find_idx_push(prev, (key, v), k);
                    lemma_find_idx_props(prev, k);
                    if k == key {
                        assert(cur[prev.len() as int] == (key, v));
                    } else if find_idx(prev, k) >= 0 {
                        assert(cur[find_idx(prev, k)] == prev[find_idx(prev, k)]);
                    }
                }
                assert forall|i: int, j: int| 0 <= i < j < cur.len()
                    implies (#[trigger] cur[i]).0 != (#[trigger] cur[j]).0 by {
                    lemma_find_idx_props(prev, key);
                    if j == cur.len() - 1 {
                        assert(cur[j].0 == key);
                        assert(cur[i] == prev[i]);
                    } else {
                        assert(cur[i] == prev[i] && cur[j] == prev[j]);
                    }
                }
            }
        },
    }
}

/// Queryable button state for one tick: key and mouse-button states with
/// press and release edges, and the tick's scroll movement.
#[derive(Clone, Debug)]
pub struct InputState {
    pub keys: Vec<(u32, ButtonState)>,
    pub mouse_buttons: Vec<(u32, ButtonState)>,
    pub scroll_delta: i32,
}

/// The state a key settles into once its edge has been observed.
pub open spec fn held(b: ButtonState) -> ButtonState {
    if b is KeptPressed || b is JustPressed {
        ButtonState::KeptPressed
    } else {
        ButtonState::KeptReleased
    }
}

/// The state a key enters on a raw press or release event, given its state
/// before.
pub open spec fn after_event(before: ButtonState, ev: ButtonStateEvent) -> ButtonState {
    if ev is Press {
        if before is KeptPressed || before is JustPressed {
            ButtonState::KeptPressed
        } else {
            ButtonState::JustPressed
        }
    } else {
        if before is KeptReleased || before is JustReleased {
            ButtonState::KeptReleased
        } else {
            ButtonState::JustReleased
        }
    }
}

impl InputState {
    /// Both state maps hold each key at most once.
    pub open spec fn wf(self) -> bool {
        &&& keys_distinct(self.keys@)
        &&& keys_distinct(self.mouse_buttons@)
    }

    /// The state of `key`, `KeptReleased` when unknown.
    pub open spec fn spec_get_key(self, key: u32) -> ButtonState {
        match spec_lookup(self.keys@, key) {
            Some(b) => b,
            None => ButtonState::KeptReleased,
        }
    }

    /// The state of mouse button `button`, `KeptReleased` when unknown.
    pub open spec fn spec_get_mouse_button(self, button: u32) -> ButtonState {
        match spec_lookup(self.mouse_buttons@, button) {
            Some(b) => b,
            None => ButtonState::KeptReleased,
        }
    }

    /// A state with nothing pressed and no scroll.
    pub fn new() -> (r: InputState)
        ensures
            r.wf(),
            forall|k: u32| #[trigger] r.spec_get_key(k) == ButtonState::KeptReleased,
            forall|b: u32| #[trigger] r.spec_get_mouse_button(b) == ButtonState::KeptReleased,
            r.scroll_delta == 0,
    {
        InputState { keys: Vec::new(), mouse_buttons: Vec::new(), scroll_delta: 0 }
    }

    /// The state of `keycode`.
    pub fn get_key(&self, keycode: u32) -> (r: ButtonState)
        ensures
            r == self.spec_get_key(keycode),
    {
        match assoc_find_idx(&self.keys, keycode) {
            Some(i) => {
                proof {
                    lemma_find_idx_props(self.keys@, keycode);
                }
                self.keys[i].1
            },
            None => ButtonState::KeptReleased,
        }
    }

    /// The state of mouse button `button`.
    pub fn get_mouse_button(&self, button: u32) -> (r: ButtonState)
        ensures
            r == self.spec_get_mouse_button(button),
    {
        match assoc_find_idx(&self.mouse_buttons, button) {
            Some(i) => {
                proof {
                    lemma_find_idx_props(self.mouse_buttons@, button);
                }
                self.mouse_buttons[i].1
            },
            None => ButtonState::KeptReleased,
        }
    }

    /// The raw movement input: right minus left, forward minus back, each
    /// -1, 0 or 1.
    pub fn get_movement_vector(&self) -> (r: (i32, i32))
        ensures
            r.0 == (if self.spec_get_key(KEY_D) is KeptPressed || self.spec_get_key(KEY_D) is JustPressed { 1int } else { 0int })
                - (if self.spec_get_key(KEY_A) is KeptPressed || self.spec_get_key(KEY_A) is JustPressed { 1int } else { 0int }),
            r.1 == (if self.spec_get_key(KEY_W) is KeptPressed || self.spec_get_key(KEY_W) is JustPressed { 1int } else { 0int })
                - (if self.spec_get_key(KEY_S) is KeptPressed || self.spec_get_key(KEY_S) is JustPressed { 1int } else { 0int }),
    {
        let fwd: i32 = if self.get_key(KEY_W).pressed() { 1 } else { 0 };
        let bck: i32 = if self.get_key(KEY_S).pressed() { 1 } else { 0 };
        let rgh: i32 = if self.get_key(KEY_D).pressed() { 1 } else { 0 };
        let lft: i32 = if self.get_key(KEY_A).pressed() { 1 } else { 0 };
        (rgh - lft, fwd - bck)
    }

    /// Turn every edge state into its settled form, after a tick has
    /// observed it.
    pub fn update_held_status(&mut self)
        requires
            old(self).wf(),
        ensures
            final(self).wf(),
            forall|k: u32| #[trigger] final(self).spec_get_key(k) == held(old(self).spec_get_key(k)),
            forall|b: u32|
                #[trigger] final(self).spec_get_mouse_button(b)
                    == held(old(self).spec_get_mouse_button(b)),
            final(self).scroll_delta == old(self).scroll_delta,
    {
        settle_states(&mut self.keys);
        settle_states(&mut self.mouse_buttons);
    }

    /// Record a key press or release.
    pub fn push_keyboard_event(&mut self, event: KeyboardEvent)
        requires
            old(self).wf(),
        ensures
            final(self).wf(),
            final(self).spec_get_key(event.key)
                == after_event(old(self).spec_get_key(event.key), event.state),
            forall|k: u32|
                k != event.key ==> #[trigger] final(self).spec_get_key(k) == old(self).spec_get_key(k),
            final(self).mouse_buttons == old(self).mouse_buttons,
            final(self).scroll_delta == old(self).scroll_delta,
    {
        let before = self.get_key(event.key);
        let next = if matches!(event.state, ButtonStateEvent::Press) {
            if before.pressed() {
                ButtonState::KeptPressed
            } else {
                ButtonState::JustPressed
            }
        } else {
            if before.released() {
                ButtonState::KeptReleased
            } else {
                ButtonState::JustReleased
            }
        };
        assoc_set(&mut self.keys, event.key, next);
    }

    /// Record a mouse button press or release.
    pub fn push_mouse_button_event(&mut self, event: MouseButtonEvent)
        requires
            old(self).wf(),
        ensures
            final(self).wf(),
            final(self).spec_get_mouse_button(event.button)
                == after_event(old(self).spec_get_mouse_button(event.button), event.state),
            forall|b: u32|
                b != event.button
                    ==> #[trigger] final(self).spec_get_mouse_button(b)
                        == old(self).spec_get_mouse_button(b),
            final(self).keys == old(self).keys,
            final(self).scroll_delta == old(self).scroll_delta,
    {
        let before = self.get_mouse_button(event.button);
        let next = if matches!(event.state, ButtonStateEvent::Press) {
            if before.pressed() {
                ButtonState::KeptPressed
            } else {
                ButtonState::JustPressed
            }
        } else {
            if before.released() {
                ButtonState::KeptReleased
            } else {
                ButtonState::JustReleased
            }
        };
        assoc_set(&mut self.mouse_buttons, event.button, next);
    }
}

/// Map every state in the list to its settled form.
fn settle_states(entries: &mut Vec<(u32, ButtonState)>)
    requires
        keys_distinct(old(entries)@),
    ensures
        keys_distinct(final(entries)@),
        forall|k: u32|
            #[trigger] spec_lookup(final(entries)@, k) == match spec_lookup(old(entries)@, k) {
                Some(b) => Some(held(b)),
                None => None::<ButtonState>,
            },
{
    let mut i: usize = 0;
    while i < entries.len()
        invariant
            keys_distinct(entries@),
            i <= entries.len(),
            entries@.len() == old(entries)@.len(),
            forall|j: int|
                0 <= j < entries@.len() ==> (#[trigger] entries@[j]).0 == old(entries)@[j].0,
            forall|j: int|
                0 <= j < i ==> (#[trigger] entries@[j]).1 == held(old(entries)@[j].1),
            forall|j: int|
                i <= j < entries@.len() ==> (#[trigger] entries@[j]).1 == old(entries)@[j].1,
        decreases entries.len() - i,
    {
        let (k, b) = entries[i];
        let nb = if b.pressed() {
            ButtonState::KeptPressed
        } else {
            ButtonState::KeptReleased
        };
        entries.set(i, (k, nb));
        i = i + 1;
    }
    proof {
        assert forall|k: u32| true
            implies #[trigger] spec_lookup(entries@, k) == match spec_lookup(old(entries)@, k) {
                Some(b) => Some(held(b)),
                None => None::<ButtonState>,
            } by {
            lemma_find_idx_frame(old(entries)@, entries@, k);
            lemma_find_idx_props(old(entries)@, k);
        }
    }
}

/// Take-latest event buffering: each key holds its oldest undelivered event
/// and at most one newer event of the opposite transition. A redundant
/// event (same transition as the latest buffered one) is dropped.
pub struct ButtonBuffer<E: ButtonEvent> {
    pub entries: Vec<(u32, (E, Option<E>))>,
}

/// The buffered pair for `key` after `e` arrives.
pub open spec fn pushed_entry<E: ButtonEvent>(cur: Option<(E, Option<E>)>, e: E) -> (E, Option<E>) {
    match cur {
        None => (e, None),
        Some((first, second)) => {
            let latest = match second {
                Some(s) => s,
                None => first,
            };
            if latest.state_spec() == e.state_spec() {
                (first, second)
            } else {
                match second {
                    Some(s) => (s, Some(e)),
                    None => (first, Some(e)),
                }
            }
        },
    }
}

impl<E: ButtonEvent + Copy> ButtonBuffer<E> {
    /// Each key buffered at most once.
    pub open spec fn wf(self) -> bool {
        keys_distinct(self.entries@)
    }

    /// The buffered pair for `key`, if any.
    pub open spec fn spec_entry(self, key: u32) -> Option<(E, Option<E>)> {
        spec_lookup(self.entries@, key)
    }

    /// An empty buffer.
    pub fn new() -> (r: ButtonBuffer<E>)
        ensures
            r.wf(),
            forall|k: u32| #[trigger] r.spec_entry(k) is None,
    {
        ButtonBuffer { entries: Vec::new() }
    }

    /// The keys that currently hold buffered events, in storage order.
    pub fn keys(&self) -> (r: Vec<u32>)
        ensures
            r@.len() == self.entries@.len(),
            forall|i: int| 0 <= i < r@.len() ==> #[trigger] r@[i] == self.entries@[i].0,
    {
        let mut r: Vec<u32> = Vec::new();
        let mut i: usize = 0;
        while i < self.entries.len()
            invariant
                i <= self.entries.len(),
                r@.len() == i,
                forall|j: int| 0 <= j < i ==> #[trigger] r@[j] == self.entries@[j].0,
            decreases self.entries.len() - i,
        {
            r.push(self.entries[i].0);
            i = i + 1;
        }
        r
    }

    /// Buffer `event`, dropping it when it repeats the latest buffered
    /// transition for its key.
    pub fn push(&mut self, event: E)
        requires
            old(self).wf(),
        ensures
            final(self).wf(),
            final(self).spec_entry(event.key_spec())
                == Some(pushed_entry(old(self).spec_entry(event.key_spec()), event)),
            forall|k: u32|
                k != event.key_spec() ==> #[trigger] final(self).spec_entry(k)
                    == old(self).spec_entry(k),
    {
        let key = event.key();
        let cur = match assoc_find_idx(&self.entries, key) {
            Some(i) => {
                proof {
                    lemma_find_idx_props(self.entries@, key);
                }
                Some(self.entries[i].1)
            },
            None => None,
        };
        let next: (E, Option<E>) = match cur {
            None => (event, None),
            Some((first, second)) => {
                let latest = match second {
                    Some(s) => s,
                    None => first,
                };
                if latest.state() == event.state() {
                    (first, second)
                } else {
                    match second {
                        Some(s) => (s, Some(event)),
                        None => (first, Some(event)),
                    }
                }
            },
        };
        assoc_set(&mut self.entries, key, next);
    }

    /// Deliver the oldest buffered event for `key`, if any.
    pub fn pull(&mut self, key: u32) -> (r: Option<E>)
        requires
            old(self).wf(),
        ensures
            final(self).wf(),
            r == match old(self).spec_entry(key) {
                Some((first, _)) => Some(first),
                None => None::<E>,
            },
            final(self).spec_entry(key) == match old(self).spec_entry(key) {
                Some((_, Some(second))) => Some((second, None::<E>)),
                _ => None::<(E, Option<E>)>,
            },
            forall|k: u32|
                k != key ==> #[trigger] final(self).spec_entry(k) == old(self).spec_entry(k),
    {
        match assoc_find_idx(&self.entries, key) {
            None => None,
            Some(i) => {
                proof {
                    lemma_find_idx_props(self.entries@, key);
                }
                let (_, (first, second)) = self.entries[i];
                match second {
                    Some(s) => {
                        assoc_set(&mut self.entries, key, (s, None));
                    },
                    None => {
                        let ghost prev = self.entries@;
                        self.entries.remove(i);
                        proof {
                            assert forall|k: u32| true
                                implies #[trigger] spec_lookup(self.entries@, k) == (if k == key {
                                    None
                                } else {
                                    spec_lookup(prev, k)
                                }) by {
                                if k == key {
                                    lemma_find_idx_props(self.entries@, k);
                                    if find_idx(self.entries@, k) >= 0 {
                                        let j = find_idx(self.entries@, k);
                                        if j < i {
                                            assert(self.entries@[j] == prev[j]);
                                            lemma_find_idx_first(prev, k, j);
                                        } else {
                                            assert(self.entries@[j] == prev[j + 1]);
                                        }
                                    }
                                } else {
                                    lemma_lookup_remove(prev, i as int, k);
                                }
                            }
                            assert forall|a: int, b2: int|
                                0 <= a < b2 < self.entries@.len()
                                implies (#[trigger] self.entries@[a]).0
                                    != (#[trigger] self.entries@[b2]).0 by {
                                if b2 < i {
                                    assert(self.entries@[a] == prev[a] && self.entries@[b2] == prev[b2]);
                                } else if a < i {
                                    assert(self.entries@[a] == prev[a] && self.entries@[b2] == prev[b2 + 1]);
                                } else {
                                    assert(self.entries@[a] == prev[a + 1] && self.entries@[b2] == prev[b2 + 1]);
                                }
                            }
                        }
                    },
                }
                Some(first)
            },
        }
    }
}

} // verus!
