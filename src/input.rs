use vstd::prelude::*;

verus! {

/// Identifier of a keyboard key, as the input provider numbers them.
#[derive(Clone, Copy, Debug, PartialEq, Eq, Structural)]
pub struct KeyCode(pub u32);

/// A key that is currently held.
#[derive(Clone, Copy, Debug, PartialEq, Eq, Structural)]
pub struct KeyDown {
    pub key_code: KeyCode,
    /// Set only during the tick in which the key went down.
    pub just_pressed: bool,
}

/// One keyboard transition reported by the input provider. A report without
/// a key code carries nothing and is ignored.
#[derive(Clone, Copy, Debug, PartialEq, Eq, Structural)]
pub struct KeyEvent {
    pub key_code: Option<KeyCode>,
    /// `true` when the key went down, `false` when it was released.
    pub pressed: bool,
}

/// The pair of keys bound to a left/right controller.
#[derive(Clone, Copy, Debug, PartialEq, Eq, Structural)]
pub struct LRKeys {
    pub key_l: KeyCode,
    pub key_r: KeyCode,
}

/// Which way a left/right controller pushes its body this tick.
#[derive(Clone, Copy, Debug, PartialEq, Eq, Structural)]
pub enum Steer {
    Left,
    Right,
    /// Both keys or neither are held: no force is applied.
    Idle,
}

/// The push of a left/right controller given which of its keys are held:
/// one key alone pushes its way, both or neither push nothing.
pub open spec fn steer_of(l_down: bool, r_down: bool) -> Steer {
    if r_down && !l_down {
        Steer::Right
    } else if l_down && !r_down {
        Steer::Left
    } else {
        Steer::Idle
    }
}

/// Sign of the horizontal force that a push applies.
pub open spec fn direction_of(s: Steer) -> int {
    match s {
        Steer::Left => -1,
        Steer::Right => 1,
        Steer::Idle => 0,
    }
}

impl Steer {
    /// Sign of the horizontal force this push applies: -1, 0 or 1.
    pub fn direction(&self) -> (d: i8)
        ensures
            d == direction_of(*self),
    {
        match self {
            Steer::Left => -1,
            Steer::Right => 1,
            Steer::Idle => 0,
        }
    }
}

/// The push of a left/right controller given which of its keys are held.
pub fn steer(l_down: bool, r_down: bool) -> (s: Steer)
    ensures
        s == steer_of(l_down, r_down),
{
    if r_down && !l_down {
        Steer::Right
    } else if l_down && !r_down {
        Steer::Left
    } else {
        Steer::Idle
    }
}

/// Some entry of `s` is for key `k`.
pub open spec fn is_down(s: Seq<KeyDown>, k: KeyCode) -> bool {
    exists|i: int| 0 <= i < s.len() && s[i].key_code == k
}

/// No key is listed twice.
pub open spec fn unique_keys(s: Seq<KeyDown>) -> bool {
    forall|i: int, j: int| 0 <= i < j < s.len() ==> s[i].key_code != s[j].key_code
}

/// The same keys, none of them marked as just pressed.
pub open spec fn cleared(s: Seq<KeyDown>) -> Seq<KeyDown> {
    Seq::new(s.len(), |i: int| KeyDown { key_code: s[i].key_code, just_pressed: false })
}

/// `s` without the entry for key `k`.
pub open spec fn without_key(s: Seq<KeyDown>, k: KeyCode) -> Seq<KeyDown> {
    if is_down(s, k) {
        s.remove(choose|i: int| 0 <= i < s.len() && s[i].key_code == k)
    } else {
        s
    }
}

/// The held keys after one transition: a newly pressed key is appended as
/// just pressed, a released key is dropped, anything else changes nothing.
pub open spec fn apply_event(s: Seq<KeyDown>, e: KeyEvent) -> Seq<KeyDown> {
    match e.key_code {
        None => s,
        Some(k) => if e.pressed {
            if is_down(s, k) {
                s
            } else {
                s.push(KeyDown { key_code: k, just_pressed: true })
            }
        } else {
            without_key(s, k)
        },
    }
}

/// The held keys after the transitions of `es`, in order.
pub open spec fn apply_events(s: Seq<KeyDown>, es: Seq<KeyEvent>) -> Seq<KeyDown>
    decreases es.len(),
{
    if es.len() == 0 {
        s
    } else {
        apply_event(apply_events(s, es.drop_last()), es.last())
    }
}

/// Tracks which keys are held, from the transitions reported each tick.
pub struct InputSystem {
    keys_down: Vec<KeyDown>,
}

impl View for InputSystem {
    type V = Seq<KeyDown>;

    closed spec fn view(&self) -> Seq<KeyDown> {
        self.keys_down@
    }
}

impl InputSystem {
    /// The invariant: each held key is listed once.
    pub open spec fn wf(&self) -> bool {
        unique_keys(self@)
    }

    /// No key held.
    pub fn new() -> (s: InputSystem)
        ensures
            s.wf(),
            s@ == Seq::<KeyDown>::empty(),
    {
        InputSystem { keys_down: Vec::new() }
    }

    /// The entry for key `k` if it is held.
    pub fn is_key_down(&self, k: KeyCode) -> (r: Option<KeyDown>)
        requires
            self.wf(),
        ensures
            r.is_some() == is_down(self@, k),
            r matches Some(d) ==> d.key_code == k && self@.contains(d),
    {
        let mut i: usize = 0;
        while i < self.keys_down.len()
            invariant
                i <= self@.len(),
                forall|j: int| 0 <= j < i ==> self@[j].key_code != k,
            decreases self@.len() - i,
        {
            if self.keys_down[i].key_code == k {
                return Some(self.keys_down[i]);
            }
            i = i + 1;
        }
        None
    }

    /// Drops the entry for key `k`, if there is one.
    fn remove_key_down(&mut self, k: KeyCode)
        requires
            old(self).wf(),
        ensures
            final(self).wf(),
            final(self)@ == without_key(old(self)@, k),
    {
        let mut i: usize = 0;
        while i < self.keys_down.len()
            invariant
                self@ == old(self)@,
                unique_keys(self@),
                i <= self@.len(),
                forall|j: int| 0 <= j < i ==> self@[j].key_code != k,
            decreases self@.len() - i,
        {
            if self.keys_down[i].key_code == k {
                proof {
                    let c = choose|j: int| 0 <= j < self@.len() && self@[j].key_code == k;
                    assert(c == i as int);
                }
                self.keys_down.remove(i);
                proof {
                    let s = old(self)@;
                    assert forall|a: int, b: int| 0 <= a < b < self@.len() implies self@[a].key_code
                        != self@[b].key_code by {
                        let a2 = if a < i { a } else { a + 1 };
                        let b2 = if b < i { b } else { b + 1 };
                        assert(self@[a] == s[a2] && self@[b] == s[b2]);
                    }
                }
                return;
            }
            i = i + 1;
        }
    }

    /// Marks every held key as no longer just pressed.
    fn clear_just_pressed(&mut self)
        requires
            old(self).wf(),
        ensures
            final(self).wf(),
            final(self)@ == cleared(old(self)@),
    {
        let mut i: usize = 0;
        while i < self.keys_down.len()
            invariant
                self@.len() == old(self)@.len(),
                i <= self@.len(),
                forall|j: int|
                    0 <= j < i ==> self@[j] == (KeyDown {
                        key_code: old(self)@[j].key_code,
                        just_pressed: false,
                    }),
                forall|j: int| i <= j < self@.len() ==> self@[j] == old(self)@[j],
            decreases self@.len() - i,
        {
            let k = self.keys_down[i].key_code;
            self.keys_down.set(i, KeyDown { key_code: k, just_pressed: false });
            i = i + 1;
        }
        assert(self@ =~= cleared(old(self)@));
    }

    /// Applies one transition to the held keys.
    fn apply_key_event(&mut self, e: KeyEvent)
        requires
            old(self).wf(),
        ensures
            final(self).wf(),
            final(self)@ == apply_event(old(self)@, e),
    {
        match e.key_code {
            None => {},
            Some(k) => {
                if e.pressed {
                    if self.is_key_down(k).is_none() {
                        self.keys_down.push(KeyDown { key_code: k, just_pressed: true });
                    }
                } else {
                    self.remove_key_down(k);
                }
            },
        }
    }

    /// Starts a new tick: clears the just-pressed marks, then applies the
    /// tick's transitions in order.
    pub fn update_input_state(&mut self, events: &Vec<KeyEvent>)
        requires
            old(self).wf(),
        ensures
            final(self).wf(),
            final(self)@ == apply_events(cleared(old(self)@), events@),
    {
        self.clear_just_pressed();
        let mut i: usize = 0;
        while i < events.len()
            invariant
                self.wf(),
                i <= events@.len(),
                self@ == apply_events(cleared(old(self)@), events@.subrange(0, i as int)),
            decreases events@.len() - i,
        {
            proof {
                let next = events@.subrange(0, i as int + 1);
                assert(next.drop_last() =~= events@.subrange(0, i as int));
            }
            self.apply_key_event(events[i]);
            i = i + 1;
        }
        assert(events@.subrange(0, events@.len() as int) =~= events@);
    }

    /// Runs one tick of input: updates the held keys from `events`, then
    /// gives, for each left/right binding in order, the way it pushes.
    pub fn process_input(&mut self, events: &Vec<KeyEvent>, bindings: &Vec<LRKeys>) -> (r: Vec<
        Steer,
    >)
        requires
            old(self).wf(),
        ensures
            final(self).wf(),
            final(self)@ == apply_events(cleared(old(self)@), events@),
            r@.len() == bindings@.len(),
            forall|i: int|
                0 <= i < r@.len() ==> #[trigger] r@[i] == steer_of(
                    is_down(final(self)@, bindings@[i].key_l),
                    is_down(final(self)@, bindings@[i].key_r),
                ),
    {
        self.update_input_state(events);
        let mut out: Vec<Steer> = Vec::new();
        let mut i: usize = 0;
        while i < bindings.len()
            invariant
                self.wf(),
                i <= bindings@.len(),
                out@.len() == i,
                forall|j: int|
                    0 <= j < i ==> #[trigger] out@[j] == steer_of(
                        is_down(self@, bindings@[j].key_l),
                        is_down(self@, bindings@[j].key_r),
                    ),
            decreases bindings@.len() - i,
        {
            let b = bindings[i];
            let l_down = self.is_key_down(b.key_l).is_some();
            let r_down = self.is_key_down(b.key_r).is_some();
            out.push(steer(l_down, r_down));
            i = i + 1;
        }
        out
    }
}

} // verus!
