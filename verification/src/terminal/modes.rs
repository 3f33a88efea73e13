//! The terminal modes that programs can set and reset.

use vstd::prelude::*;

verus! {

/// The set modes, packed into one word.
#[derive(Clone, Debug)]
pub struct TerminalModes {
    bits: u32,
}

/// The bit of a tracked mode.
spec fn mode_bit(mode: u16) -> Option<u32> {
    if mode == 7 {
        Some(0)
    } else if mode == 25 {
        Some(1)
    } else if mode == 1000 {
        Some(2)
    } else if mode == 1001 {
        Some(3)
    } else if mode == 1002 {
        Some(4)
    } else if mode == 1003 {
        Some(5)
    } else if mode == 1004 {
        Some(6)
    } else if mode == 1006 {
        Some(7)
    } else if mode == 1049 {
        Some(8)
    } else if mode == 2004 {
        Some(9)
    } else if mode == 2026 {
        Some(10)
    } else if mode == 2031 {
        Some(11)
    } else if mode == 5522 {
        Some(12)
    } else if mode == 1 {
        Some(13)
    } else if mode == 4 {
        Some(14)
    } else if mode == 6 {
        Some(15)
    } else if mode == 1005 {
        Some(16)
    } else if mode == 1015 {
        Some(17)
    } else {
        None
    }
}

/// The modes that the terminal keeps track of; setting any other has no effect.
pub open spec fn is_tracked(mode: u16) -> bool {
    ||| mode == 1
    ||| mode == 4
    ||| mode == 6
    ||| mode == 7
    ||| mode == 25
    ||| 1000 <= mode <= 1006
    ||| mode == 1015
    ||| mode == 1049
    ||| mode == 2004
    ||| mode == 2026
    ||| mode == 2031
    ||| mode == 5522
}

proof fn lemma_set_and_clear(bits: u32, k: u32, j: u32)
    by (bit_vector)
    requires
        k < 18,
        j < 18,
    ensures
        ((bits | (1u32 << k)) & (1u32 << j) != 0) == (j == k || bits & (1u32 << j) != 0),
        ((bits & !(1u32 << k)) & (1u32 << j) != 0) == (j != k && bits & (1u32 << j) != 0),
        0u32 & (1u32 << j) == 0,
{
}

impl View for TerminalModes {
    type V = Set<u16>;

    closed spec fn view(&self) -> Set<u16> {
        Set::new(
            |m: u16|
                match mode_bit(m) {
                    Some(bit) => self.bits & (1u32 << bit) != 0,
                    None => false,
                },
        )
    }
}

impl TerminalModes {
    fn bit_index(mode: u16) -> (bit: Option<u32>)
        ensures
            bit == mode_bit(mode),
            bit matches Some(b) ==> b < 18,
            bit is Some <==> is_tracked(mode),
    {
        match mode {
            7 => Some(0),
            25 => Some(1),
            1000 => Some(2),
            1001 => Some(3),
            1002 => Some(4),
            1003 => Some(5),
            1004 => Some(6),
            1006 => Some(7),
            1049 => Some(8),
            2004 => Some(9),
            2026 => Some(10),
            2031 => Some(11),
            5522 => Some(12),
            1 => Some(13),  // DECCKM application cursor keys
            4 => Some(14),  // IRM insert/replace mode
            6 => Some(15),  // DECOM origin mode
            1005 => Some(16),  // UTF-8 mouse encoding
            1015 => Some(17),  // urxvt mouse encoding
            _ => None,
        }
    }

    /// No mode is set.
    pub fn new() -> (modes: Self)
        ensures
            modes@ == Set::<u16>::empty(),
    {
        let modes = TerminalModes { bits: 0 };
        proof {
            assert forall|m: u16| !modes@.contains(m) by {
                if mode_bit(m) is Some {
                    lemma_set_and_clear(0, 0, mode_bit(m)->0);
                }
            }
            assert(modes@ =~= Set::<u16>::empty());
        }
        modes
    }

    /// Whether a mode is set.
    pub fn contains(&self, mode: u16) -> (v: bool)
        ensures
            v == self@.contains(mode),
    {
        match Self::bit_index(mode) {
            Some(bit) => self.bits & (1u32 << bit) != 0,
            None => false,
        }
    }

    /// Sets a mode, if it is tracked.
    pub fn insert(&mut self, mode: u16)
        ensures
            final(self)@ == (if is_tracked(mode) {
                old(self)@.insert(mode)
            } else {
                old(self)@
            }),
    {
        if let Some(bit) = Self::bit_index(mode) {
            let ghost before = self.bits;
            self.bits = self.bits | (1u32 << bit);
            proof {
                assert forall|m: u16| self@.contains(m) == old(self)@.insert(mode).contains(m) by {
                    if mode_bit(m) is Some {
                        lemma_set_and_clear(before, bit, mode_bit(m)->0);
                    }
                }
                assert(self@ =~= old(self)@.insert(mode));
            }
        }
    }

    /// Resets a mode.
    pub fn remove(&mut self, mode: u16)
        ensures
            final(self)@ == old(self)@.remove(mode),
    {
        match Self::bit_index(mode) {
            Some(bit) => {
                let ghost before = self.bits;
                self.bits = self.bits & !(1u32 << bit);
                proof {
                    assert forall|m: u16|
                        self@.contains(m) == old(self)@.remove(mode).contains(m) by {
                        if mode_bit(m) is Some {
                            lemma_set_and_clear(before, bit, mode_bit(m)->0);
                        }
                    }
                    assert(self@ =~= old(self)@.remove(mode));
                }
            },
            None => {
                proof {
                    assert(self@ =~= old(self)@.remove(mode));
                }
            },
        }
    }
}

} // verus!
