use vstd::prelude::*;

verus! {

/// Number of logical keys on the keypad (codes `0x0..=0xF`).
pub const KEY_COUNT: u8 = 16;

/// Whether bit `k` of `state` is set.
pub open spec fn bit_set(state: u16, k: u16) -> bool {
    state & (1u16 << k) != 0
}

proof fn lemma_press_bit(s: u16, key: u16, j: u16)
    requires
        key < 16,
        j < 16,
    ensures
        bit_set(s | (1u16 << key), j) == (j == key || bit_set(s, j)),
{
    assert((s | (1u16 << key)) & (1u16 << j) != 0 <==> (j == key || s & (1u16 << j) != 0))
        by (bit_vector)
        requires
            key < 16,
            j < 16,
    ;
}

proof fn lemma_release_bit(s: u16, key: u16, j: u16)
    requires
        key < 16,
        j < 16,
    ensures
        bit_set(s & !(1u16 << key), j) == (j != key && bit_set(s, j)),
{
    assert((s & !(1u16 << key)) & (1u16 << j) != 0 <==> (j != key && s & (1u16 << j) != 0))
        by (bit_vector)
        requires
            key < 16,
            j < 16,
    ;
}

proof fn lemma_test_bit(s: u16, key: u16)
    requires
        key < 16,
    ensures
        (s & (1u16 << key) == (1u16 << key)) == bit_set(s, key),
{
    assert((s & (1u16 << key) == (1u16 << key)) <==> s & (1u16 << key) != 0) by (bit_vector)
        requires
            key < 16,
    ;
}

proof fn lemma_nonzero_has_bit(s: u16)
    ensures
        s != 0 <==> exists|j: u16| j < 16 && #[trigger] bit_set(s, j),
{
    if s != 0 {
        assert(bit_set(s, 0) || bit_set(s, 1) || bit_set(s, 2) || bit_set(s, 3) || bit_set(s, 4)
            || bit_set(s, 5) || bit_set(s, 6) || bit_set(s, 7) || bit_set(s, 8) || bit_set(s, 9)
            || bit_set(s, 10) || bit_set(s, 11) || bit_set(s, 12) || bit_set(s, 13) || bit_set(
            s,
            14,
        ) || bit_set(s, 15)) by (bit_vector)
            requires
                s != 0,
        ;
    } else {
        assert forall|j: u16| j < 16 implies !bit_set(s, j) by {
            assert(s == 0 ==> (s & (1u16 << j)) == 0) by (bit_vector);
        }
    }
}

/// The keypad: sixteen logical keys, each pressed or released.
///
/// Key codes are logical; which physical key produces which code is decided
/// outside this type.
pub struct Keyboard {
    keys_state: u16,
}

impl View for Keyboard {
    type V = Seq<bool>;

    /// Entry `k` tells whether key `k` is pressed.
    closed spec fn view(&self) -> Seq<bool> {
        Seq::new(16, |k: int| bit_set(self.keys_state, k as u16))
    }
}

/// Every keypad has exactly sixteen keys.
pub broadcast proof fn lemma_keys_len(k: &Keyboard)
    ensures
        #[trigger] k@.len() == 16,
{
}

/// Whether some key of `keys` is pressed.
pub open spec fn any_pressed(keys: Seq<bool>) -> bool {
    exists|k: int| 0 <= k < keys.len() && #[trigger] keys[k]
}

/// The lowest code of a pressed key, if any key is pressed.
pub open spec fn lowest_pressed(keys: Seq<bool>) -> Option<u8> {
    if any_pressed(keys) {
        Some(choose|k: u8| k < keys.len() && keys[k as int] && forall|j: int| 0 <= j < k ==> !keys[j])
    } else {
        None
    }
}

impl Keyboard {
    /// A keypad with every key released.
    pub fn new() -> (r: Self)
        ensures
            r@ == Seq::new(16, |k: int| false),
    {
        let r = Self { keys_state: 0 };
        assert forall|k: u16| k < 16 implies !bit_set(0, k) by {
            assert(0u16 & (1u16 << k) == 0) by (bit_vector);
        }
        assert(r@ =~= Seq::new(16, |k: int| false));
        r
    }

    /// Whether key `key` is pressed.
    pub fn is_pressed(&self, key: u8) -> (r: bool)
        requires
            key < KEY_COUNT,
        ensures
            r == self@[key as int],
    {
        proof {
            lemma_test_bit(self.keys_state, key as u16);
        }
        self.keys_state & (1 << key) == 1 << key
    }

    /// Marks key `key` as pressed.
    pub fn press(&mut self, key: u8)
        requires
            key < KEY_COUNT,
        ensures
            final(self)@ == old(self)@.update(key as int, true),
    {
        let ghost s = self.keys_state;
        self.keys_state = self.keys_state | (1 << key);
        proof {
            assert forall|j: int| 0 <= j < 16 implies self@[j] == (j == key || old(self)@[j]) by {
                lemma_press_bit(s, key as u16, j as u16);
            }
            assert(self@ =~= old(self)@.update(key as int, true));
        }
    }

    /// Marks key `key` as released.
    pub fn release(&mut self, key: u8)
        requires
            key < KEY_COUNT,
        ensures
            final(self)@ == old(self)@.update(key as int, false),
    {
        let ghost s = self.keys_state;
        self.keys_state = self.keys_state & !(1 << key);
        proof {
            assert forall|j: int| 0 <= j < 16 implies self@[j] == (j != key && old(self)@[j]) by {
                lemma_release_bit(s, key as u16, j as u16);
            }
            assert(self@ =~= old(self)@.update(key as int, false));
        }
    }

    /// Whether any key is pressed.
    pub fn is_any_pressed(&self) -> (r: bool)
        ensures
            r == any_pressed(self@),
    {
        proof {
            lemma_nonzero_has_bit(self.keys_state);
            if self.keys_state != 0 {
                let j = choose|j: u16| j < 16 && #[trigger] bit_set(self.keys_state, j);
                assert(self@[j as int]);
            }
        }
        self.keys_state != 0
    }

    /// The lowest code of a pressed key, or `None` when no key is pressed.
    pub fn first_pressed(&self) -> (r: Option<u8>)
        ensures
            r == lowest_pressed(self@),
    {
        let mut k: u8 = 0;
        while k < KEY_COUNT
            invariant
                k <= 16,
                forall|j: int| 0 <= j < k ==> !self@[j],
            decreases 16 - k,
        {
            if self.is_pressed(k) {
                assert(any_pressed(self@));
                let ghost c = choose|c: u8|
                    c < self@.len() && self@[c as int] && forall|j: int| 0 <= j < c ==> !self@[j];
                assert(c == k) by {
                    if c < k {
                        assert(!self@[c as int]);
                    } else if c > k {
                        assert(!self@[k as int]);
                    }
                };
                return Some(k);
            }
            k = k + 1;
        }
        assert(!any_pressed(self@));
        None
    }
}

/// The keyboard layout: the character of the key that produces logical key
/// `k` is entry `k`.
pub open spec fn key_layout() -> Seq<char> {
    seq!['x', '1', '2', '3', 'q', 'w', 'e', 'a', 's', 'd', 'z', 'c', '4', 'r', 'f', 'v']
}

/// The logical key that the keyboard key labelled `key` (lower case)
/// produces, if any.
pub fn map_key_to_u8(key: char) -> (r: Option<u8>)
    ensures
        r is Some <==> key_layout().contains(key),
        r is Some ==> r->Some_0 < KEY_COUNT && key_layout()[r->Some_0 as int] == key,
{
    let layout: [char; 16] = [
        'x', '1', '2', '3', 'q', 'w', 'e', 'a', 's', 'd', 'z', 'c', '4', 'r', 'f', 'v',
    ];
    assert(layout@ =~= key_layout());
    let mut k: usize = 0;
    while k < 16
        invariant
            k <= 16,
            layout@ == key_layout(),
            forall|j: int| 0 <= j < k ==> key_layout()[j] != key,
        decreases 16 - k,
    {
        if layout[k] == key {
            return Some(k as u8);
        }
        k = k + 1;
    }
    assert(!key_layout().contains(key));
    None
}

} // verus!
