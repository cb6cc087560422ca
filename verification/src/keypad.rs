//! The hexadecimal keypad: 16 independent latched key states.
//!
//! Keys are set and cleared only by the external input collaborator; the
//! interpreter reads them through [`Keypad::is_key_down`].

use vstd::prelude::*;

verus! {

/// 16 independent boolean key states, indexed 0x0 through 0xF.
pub struct Keypad {
    keys: Vec<bool>,
}

impl View for Keypad {
    type V = Seq<bool>;

    closed spec fn view(&self) -> Seq<bool> {
        self.keys@
    }
}

impl Keypad {
    /// A keypad is well formed when it holds exactly 16 key states.
    pub open spec fn wf(&self) -> bool {
        self@.len() == 16
    }

    /// A fresh keypad with every key up.
    pub fn new() -> (kp: Keypad)
        ensures
            kp.wf(),
            forall|k: int| 0 <= k < 16 ==> !kp@[k],
    {
        let mut keys: Vec<bool> = Vec::new();
        let mut n: usize = 0;
        while n < 16
            invariant
                n <= 16,
                keys@.len() == n,
                forall|k: int| 0 <= k < n ==> !keys@[k],
            decreases 16 - n,
        {
            keys.push(false);
            n = n + 1;
        }
        Keypad { keys }
    }

    /// Latch key `index` down.
    pub fn key_down(&mut self, index: u8)
        requires
            old(self).wf(),
            index < 16,
        ensures
            final(self).wf(),
            final(self)@ == old(self)@.update(index as int, true),
    {
        self.keys.set(index as usize, true);
    }

    /// Release key `index`.
    pub fn key_up(&mut self, index: u8)
        requires
            old(self).wf(),
            index < 16,
        ensures
            final(self).wf(),
            final(self)@ == old(self)@.update(index as int, false),
    {
        self.keys.set(index as usize, false);
    }

    /// Whether key `index` is currently down.
    pub fn is_key_down(&self, index: u8) -> (down: bool)
        requires
            self.wf(),
            index < 16,
        ensures
            down == self@[index as int],
    {
        self.keys[index as usize]
    }
}

} // verus!
