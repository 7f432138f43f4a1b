//! Key and mouse-button state as a bit set over virtual-key positions,
//! with the helpers the input-synthesis layer composes.

use vstd::prelude::*;

verus! {

/// Bit positions: the standard virtual-key codes of the five mouse
/// buttons and the three modifier keys.
pub open spec fn keystate_mask() -> u32 {
    0x70076u32
}

/// Position of the lowest set bit at or above `k`; the bit width when
/// nothing is set there.
pub open spec fn lowest_pos(b: u32, k: u32) -> u32
    decreases 32 - k,
{
    if k >= 32 {
        32
    } else if (b >> k) & 1 == 1 {
        k
    } else {
        lowest_pos(b, (k + 1) as u32)
    }
}

/// What `lowest_pos` finds: a set bit with everything below it (and at
/// or above `k`) clear, or the bit width when nothing is set.
proof fn lemma_lowest_pos(b: u32, k: u32)
    requires
        k <= 32,
    ensures
        lowest_pos(b, k) <= 32,
        lowest_pos(b, k) < 32 ==> (b >> lowest_pos(b, k)) & 1 == 1 && (forall|j: u32|
            k <= j < lowest_pos(b, k) ==> (b >> j) & 1 == 0),
        lowest_pos(b, k) == 32 ==> (forall|j: u32| k <= j < 32 ==> (b >> j) & 1 == 0),
    decreases 32 - k,
{
    if k < 32 && (b >> k) & 1 != 1 {
        lemma_lowest_pos(b, (k + 1) as u32);
        let kk = k;
        assert((b >> kk) & 1 == 0 || (b >> kk) & 1 == 1) by (bit_vector);
    }
}

/// A set bit with everything below it clear is where `lowest_pos`
/// lands.
proof fn lemma_lowest_pos_char(b: u32, i: u32, k: u32)
    requires
        k <= i < 32,
        (b >> i) & 1 == 1,
        forall|j: u32| k <= j < i ==> (b >> j) & 1 == 0,
    ensures
        lowest_pos(b, k) == i,
    decreases i - k,
{
    if k < i {
        lemma_lowest_pos_char(b, i, (k + 1) as u32);
    }
}

/// Every held key, lowest first: the canonical enumeration of a bit
/// set as single-bit values.
pub open spec fn keys_of(b: u32) -> Seq<u32>
    decreases b via keys_of_decreases
{
    if b == 0 {
        Seq::empty()
    } else {
        let lp = lowest_pos(b, 0);
        seq![1u32 << lp] + keys_of(b & !(1u32 << lp))
    }
}

#[via_fn]
proof fn keys_of_decreases(b: u32) {
    if b != 0 {
        lemma_lowest_pos(b, 0);
        let lp = lowest_pos(b, 0);
        if lp == 32 {
            lemma_all_bits_zero(b);
        }
        assert(lp < 32 && (b >> lp) & 1 == 1 ==> (b & !(1u32 << lp)) < b) by (bit_vector);
    }
}

/// The bit values of a key list.
pub open spec fn key_bits(r: Seq<KeyState>) -> Seq<u32> {
    Seq::new(r.len(), |i: int| r[i].bits)
}

/// The lowest set bit is unique: any witness to `is_lowest_bit_of` is
/// the shift of `lowest_pos`.
proof fn lemma_lowest_bit_is_pos(kb: u32, b: u32)
    requires
        is_lowest_bit_of(kb, b),
    ensures
        lowest_pos(b, 0) < 32,
        kb == 1u32 << lowest_pos(b, 0),
{
    let i = choose|i: u32|
        i < 32 && kb == (1u32 << i) && (b >> i) & 1 == 1 && (forall|j: u32|
            j < i ==> (b >> j) & 1 == 0);
    lemma_lowest_pos_char(b, i, 0);
}

/// `kb` is exactly the lowest set bit of `b`.
pub open spec fn is_lowest_bit_of(kb: u32, b: u32) -> bool {
    exists|i: u32|
        i < 32 && kb == (1u32 << i) && (b >> i) & 1 == 1 && (forall|j: u32|
            j < i ==> (b >> j) & 1 == 0)
}

/// Exactly one bit set.
pub open spec fn single_bit(b: u32) -> bool {
    b != 0 && b & (b - 1) as u32 == 0
}

/// A set of held keys and buttons, one bit per virtual-key code.
#[derive(Clone, Copy, PartialEq, Eq, Structural, Debug)]
pub struct KeyState {
    pub bits: u32,
}

/// A value with all 32 bits clear is zero.
proof fn lemma_all_bits_zero(b: u32)
    requires
        forall|j: u32| j < 32 ==> (b >> j) & 1 == 0,
    ensures
        b == 0,
{
    assert(b == 0) by (bit_vector)
        requires
            (b >> 0u32) & 1 == 0,
    (b >> 1u32) & 1 == 0,
    (b >> 2u32) & 1 == 0,
    (b >> 3u32) & 1 == 0,
    (b >> 4u32) & 1 == 0,
    (b >> 5u32) & 1 == 0,
    (b >> 6u32) & 1 == 0,
    (b >> 7u32) & 1 == 0,
    (b >> 8u32) & 1 == 0,
    (b >> 9u32) & 1 == 0,
    (b >> 10u32) & 1 == 0,
    (b >> 11u32) & 1 == 0,
    (b >> 12u32) & 1 == 0,
    (b >> 13u32) & 1 == 0,
    (b >> 14u32) & 1 == 0,
    (b >> 15u32) & 1 == 0,
    (b >> 16u32) & 1 == 0,
    (b >> 17u32) & 1 == 0,
    (b >> 18u32) & 1 == 0,
    (b >> 19u32) & 1 == 0,
    (b >> 20u32) & 1 == 0,
    (b >> 21u32) & 1 == 0,
    (b >> 22u32) & 1 == 0,
    (b >> 23u32) & 1 == 0,
    (b >> 24u32) & 1 == 0,
    (b >> 25u32) & 1 == 0,
    (b >> 26u32) & 1 == 0,
    (b >> 27u32) & 1 == 0,
    (b >> 28u32) & 1 == 0,
    (b >> 29u32) & 1 == 0,
    (b >> 30u32) & 1 == 0,
    (b >> 31u32) & 1 == 0,
    ;
}

impl KeyState {
    /// The empty set.
    pub fn empty() -> (r: KeyState)
        ensures
            r.bits == 0,
    {
        KeyState { bits: 0 }
    }

    /// The set with exactly the given bits.
    pub fn from_bits_retain(bits: u32) -> (r: KeyState)
        ensures
            r.bits == bits,
    {
        KeyState { bits }
    }

    /// No key held.
    pub fn is_empty(&self) -> (r: bool)
        ensures
            r == (self.bits == 0),
    {
        self.bits == 0
    }

    /// The set itself when it is non-empty.
    pub fn any(self) -> (r: Option<KeyState>)
        ensures
            r == (if self.bits == 0 {
                Option::<KeyState>::None
            } else {
                Option::<KeyState>::Some(self)
            }),
    {
        if self.is_empty() {
            None
        } else {
            Some(self)
        }
    }

    /// Exactly one key held.
    pub fn is_unique(self) -> (r: bool)
        ensures
            r == single_bit(self.bits),
    {
        self.bits != 0 && self.bits & (self.bits - 1) == 0
    }

    /// The set itself when it holds exactly one key.
    pub fn key(self) -> (r: Option<KeyState>)
        ensures
            r == (if single_bit(self.bits) {
                Option::<KeyState>::Some(self)
            } else {
                Option::<KeyState>::None
            }),
    {
        if self.is_unique() {
            Some(self)
        } else {
            None
        }
    }

    /// Position of the lowest held key: its virtual-key code.  The
    /// empty set indexes to the bit width.
    pub fn index(self) -> (r: u32)
        ensures
            r <= 32,
            r < 32 ==> (self.bits >> r) & 1 == 1 && (forall|j: u32|
                j < r ==> (self.bits >> j) & 1 == 0),
            r == 32 ==> self.bits == 0,
    {
        let mut k: u32 = 0;
        while k < 32
            invariant
                k <= 32,
                forall|j: u32| j < k ==> (self.bits >> j) & 1 == 0,
            decreases 32 - k,
        {
            if (self.bits >> k) & 1 == 1 {
                return k;
            }
            proof {
                let b = self.bits;
                let kk = k;
                assert((b >> kk) & 1 == 0 || (b >> kk) & 1 == 1) by (bit_vector);
            }
            k = k + 1;
        }
        proof {
            lemma_all_bits_zero(self.bits);
        }
        32
    }

    /// A set with exactly the given position held.
    pub fn from_index_retain(index: u32) -> (r: KeyState)
        requires
            index < 32,
        ensures
            r.bits == 1u32 << index,
    {
        KeyState { bits: 1u32 << index }
    }

    /// A set with the given position held if it names a known key,
    /// empty otherwise.
    pub fn from_index(index: u32) -> (r: KeyState)
        ensures
            index >= 32 ==> r.bits == 0,
            index < 32 ==> r.bits == (1u32 << index) & keystate_mask(),
    {
        if index >= 32 {
            KeyState { bits: 0 }
        } else {
            KeyState { bits: (1u32 << index) & 0x70076 }
        }
    }

    /// The extra-button payload: the X buttons shifted to bits 0..2.
    pub fn button_x(self) -> (r: u32)
        ensures
            r == (self.bits & 0x60) >> 5,
    {
        (self.bits & 0x60) >> 5
    }

    /// The button at the given ordinal: left, right, middle, extra one
    /// and two.
    pub fn from_button_index(index: usize) -> (r: Option<KeyState>)
        ensures
            r == (match index {
                0 => Option::<KeyState>::Some(KeyState { bits: 0x2 }),
                1 => Option::<KeyState>::Some(KeyState { bits: 0x4 }),
                2 => Option::<KeyState>::Some(KeyState { bits: 0x10 }),
                3 => Option::<KeyState>::Some(KeyState { bits: 0x20 }),
                4 => Option::<KeyState>::Some(KeyState { bits: 0x40 }),
                _ => Option::<KeyState>::None,
            }),
    {
        match index {
            0 => Some(KeyState { bits: 0x2 }),
            1 => Some(KeyState { bits: 0x4 }),
            2 => Some(KeyState { bits: 0x10 }),
            3 => Some(KeyState { bits: 0x20 }),
            4 => Some(KeyState { bits: 0x40 }),
            _ => None,
        }
    }

    /// Split off the masked keys: they leave this set and are returned.
    pub fn take(&mut self, mask: KeyState) -> (r: KeyState)
        ensures
            r.bits == old(self).bits & mask.bits,
            final(self).bits == old(self).bits & !mask.bits,
    {
        let taken = KeyState { bits: self.bits & mask.bits };
        self.bits = self.bits & !mask.bits;
        taken
    }

    /// The lowest held key alone, if any.
    pub fn next_key(self) -> (r: Option<KeyState>)
        ensures
            self.bits == 0 ==> r is None,
            self.bits != 0 ==> (r matches Some(k) && single_bit(k.bits) && (k.bits & self.bits)
                == k.bits && is_lowest_bit_of(k.bits, self.bits)),
    {
        let idx = self.index();
        if idx == 32 {
            None
        } else {
            let bit = 1u32 << idx;
            proof {
                let b = self.bits;
                let i = idx;
                assert((0u32 >> i) & 1 == 0) by (bit_vector);
                assert(i < 32 && (b >> i) & 1 == 1 ==> (1u32 << i) != 0 && ((1u32 << i) & ((1u32
                    << i) - 1) as u32) == 0 && ((1u32 << i) & b) == (1u32 << i)) by (bit_vector);
            }
            Some(KeyState { bits: bit })
        }
    }

    /// Remove and return the lowest held key, if any.
    pub fn take_key(&mut self) -> (r: Option<KeyState>)
        ensures
            old(self).bits == 0 ==> (r is None && final(self).bits == 0),
            old(self).bits != 0 ==> (r matches Some(k) && single_bit(k.bits) && (k.bits & old(self).bits) == k.bits && is_lowest_bit_of(k.bits, old(self).bits) && final(self).bits == (old(self).bits & !k.bits) && final(self).bits < old(self).bits),
    {
        match self.next_key() {
            Some(k) => {
                proof {
                    let b = self.bits;
                    let kb = k.bits;
                    assert(b != 0 && kb != 0 && (kb & (kb - 1) as u32) == 0 && (kb & b) == kb
                        ==> (b & !kb) < b) by (bit_vector);
                }
                self.bits = self.bits & !k.bits;
                Some(k)
            },
            None => None,
        }
    }

    /// Every held key as its own one-bit set: exactly the canonical
    /// lowest-first enumeration of this set.
    pub fn iter_keys(self) -> (r: Vec<KeyState>)
        ensures
            key_bits(r@) == keys_of(self.bits),
            forall|i: int|
                0 <= i < r@.len() ==> single_bit((#[trigger] r@[i]).bits) && (r@[i].bits
                    & self.bits) == r@[i].bits,
    {
        let mut rest = self;
        let mut r: Vec<KeyState> = Vec::new();
        proof {
            let b = self.bits;
            assert(b & b == b) by (bit_vector);
            assert(key_bits(r@) =~= Seq::<u32>::empty());
        }
        while rest.bits != 0
            invariant
                rest.bits & self.bits == rest.bits,
                keys_of(self.bits) == key_bits(r@) + keys_of(rest.bits),
                forall|i: int|
                    0 <= i < r@.len() ==> single_bit((#[trigger] r@[i]).bits) && (r@[i].bits
                        & self.bits) == r@[i].bits,
            decreases rest.bits,
        {
            let ghost pre = rest.bits;
            let ghost prev = r@;
            match rest.take_key() {
                Some(k) => {
                    proof {
                        let b = pre;
                        let s = self.bits;
                        let kb = k.bits;
                        assert((b & s) == b && (kb & b) == kb ==> (kb & s) == kb && ((b & !kb)
                            & s) == (b & !kb)) by (bit_vector);
                        lemma_lowest_bit_is_pos(kb, b);
                        assert(keys_of(b) == seq![kb] + keys_of(b & !kb));
                    }
                    r.push(k);
                    proof {
                        assert(key_bits(r@) =~= key_bits(prev).push(k.bits));
                        assert(key_bits(prev).push(k.bits) + keys_of(rest.bits) =~= key_bits(
                            prev,
                        ) + (seq![k.bits] + keys_of(rest.bits)));
                    }
                },
                None => {},
            }
        }
        proof {
            assert(key_bits(r@) + keys_of(rest.bits) =~= key_bits(r@));
        }
        r
    }
}

} // verus!
