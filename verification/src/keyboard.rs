//! The key identity model: the closed set of 30 recognized keys and the
//! fixed 3-row by 10-column grid of physical positions.
//!
//! Keys are listed in the row-major order of the reference (QWERTY) layout,
//! so the reference position index of a key equals the key's own index.

use vstd::prelude::*;

verus! {

/// One of the 30 recognized keys: 26 letters plus `;`, `,`, `.` and `/`.
#[derive(Clone, Copy, Debug, PartialEq, Eq, Structural)]
pub enum KeyCode {
    Q,
    W,
    E,
    R,
    T,
    Y,
    U,
    I,
    O,
    P,
    A,
    S,
    D,
    F,
    G,
    H,
    J,
    K,
    L,
    Semicolon,
    Z,
    X,
    C,
    V,
    B,
    N,
    M,
    Comma,
    Dot,
    Slash,
}

impl KeyCode {
    /// The key's index in the fixed key order, which is also its row-major
    /// position index in the reference layout.
    pub open spec fn index_spec(self) -> int {
        match self {
            KeyCode::Q => 0,
            KeyCode::W => 1,
            KeyCode::E => 2,
            KeyCode::R => 3,
            KeyCode::T => 4,
            KeyCode::Y => 5,
            KeyCode::U => 6,
            KeyCode::I => 7,
            KeyCode::O => 8,
            KeyCode::P => 9,
            KeyCode::A => 10,
            KeyCode::S => 11,
            KeyCode::D => 12,
            KeyCode::F => 13,
            KeyCode::G => 14,
            KeyCode::H => 15,
            KeyCode::J => 16,
            KeyCode::K => 17,
            KeyCode::L => 18,
            KeyCode::Semicolon => 19,
            KeyCode::Z => 20,
            KeyCode::X => 21,
            KeyCode::C => 22,
            KeyCode::V => 23,
            KeyCode::B => 24,
            KeyCode::N => 25,
            KeyCode::M => 26,
            KeyCode::Comma => 27,
            KeyCode::Dot => 28,
            KeyCode::Slash => 29,
        }
    }

    /// Executable counterpart of `index_spec`.
    pub fn index(self) -> (i: usize)
        ensures
            i == self.index_spec(),
            i < 30,
    {
        match self {
            KeyCode::Q => 0,
            KeyCode::W => 1,
            KeyCode::E => 2,
            KeyCode::R => 3,
            KeyCode::T => 4,
            KeyCode::Y => 5,
            KeyCode::U => 6,
            KeyCode::I => 7,
            KeyCode::O => 8,
            KeyCode::P => 9,
            KeyCode::A => 10,
            KeyCode::S => 11,
            KeyCode::D => 12,
            KeyCode::F => 13,
            KeyCode::G => 14,
            KeyCode::H => 15,
            KeyCode::J => 16,
            KeyCode::K => 17,
            KeyCode::L => 18,
            KeyCode::Semicolon => 19,
            KeyCode::Z => 20,
            KeyCode::X => 21,
            KeyCode::C => 22,
            KeyCode::V => 23,
            KeyCode::B => 24,
            KeyCode::N => 25,
            KeyCode::M => 26,
            KeyCode::Comma => 27,
            KeyCode::Dot => 28,
            KeyCode::Slash => 29,
        }
    }

    /// Executable counterpart of `key_of_index`.
    pub fn from_index(i: usize) -> (k: KeyCode)
        requires
            i < 30,
        ensures
            k == key_of_index(i as int),
            k.index_spec() == i,
    {
        let k = if i == 0 {
            KeyCode::Q
        } else if i == 1 {
            KeyCode::W
        } else if i == 2 {
            KeyCode::E
        } else if i == 3 {
            KeyCode::R
        } else if i == 4 {
            KeyCode::T
        } else if i == 5 {
            KeyCode::Y
        } else if i == 6 {
            KeyCode::U
        } else if i == 7 {
            KeyCode::I
        } else if i == 8 {
            KeyCode::O
        } else if i == 9 {
            KeyCode::P
        } else if i == 10 {
            KeyCode::A
        } else if i == 11 {
            KeyCode::S
        } else if i == 12 {
            KeyCode::D
        } else if i == 13 {
            KeyCode::F
        } else if i == 14 {
            KeyCode::G
        } else if i == 15 {
            KeyCode::H
        } else if i == 16 {
            KeyCode::J
        } else if i == 17 {
            KeyCode::K
        } else if i == 18 {
            KeyCode::L
        } else if i == 19 {
            KeyCode::Semicolon
        } else if i == 20 {
            KeyCode::Z
        } else if i == 21 {
            KeyCode::X
        } else if i == 22 {
            KeyCode::C
        } else if i == 23 {
            KeyCode::V
        } else if i == 24 {
            KeyCode::B
        } else if i == 25 {
            KeyCode::N
        } else if i == 26 {
            KeyCode::M
        } else if i == 27 {
            KeyCode::Comma
        } else if i == 28 {
            KeyCode::Dot
        } else {
            KeyCode::Slash
        };
        k
    }

    /// The character printed on the key.
    pub open spec fn char_spec(self) -> char {
        match self {
            KeyCode::Q => 'Q',
            KeyCode::W => 'W',
            KeyCode::E => 'E',
            KeyCode::R => 'R',
            KeyCode::T => 'T',
            KeyCode::Y => 'Y',
            KeyCode::U => 'U',
            KeyCode::I => 'I',
            KeyCode::O => 'O',
            KeyCode::P => 'P',
            KeyCode::A => 'A',
            KeyCode::S => 'S',
            KeyCode::D => 'D',
            KeyCode::F => 'F',
            KeyCode::G => 'G',
            KeyCode::H => 'H',
            KeyCode::J => 'J',
            KeyCode::K => 'K',
            KeyCode::L => 'L',
            KeyCode::Semicolon => ';',
            KeyCode::Z => 'Z',
            KeyCode::X => 'X',
            KeyCode::C => 'C',
            KeyCode::V => 'V',
            KeyCode::B => 'B',
            KeyCode::N => 'N',
            KeyCode::M => 'M',
            KeyCode::Comma => ',',
            KeyCode::Dot => '.',
            KeyCode::Slash => '/',
        }
    }

    /// The character printed on the key, for display purposes.
    pub fn to_char(self) -> (c: char)
        ensures
            c == self.char_spec(),
    {
        match self {
            KeyCode::Q => 'Q',
            KeyCode::W => 'W',
            KeyCode::E => 'E',
            KeyCode::R => 'R',
            KeyCode::T => 'T',
            KeyCode::Y => 'Y',
            KeyCode::U => 'U',
            KeyCode::I => 'I',
            KeyCode::O => 'O',
            KeyCode::P => 'P',
            KeyCode::A => 'A',
            KeyCode::S => 'S',
            KeyCode::D => 'D',
            KeyCode::F => 'F',
            KeyCode::G => 'G',
            KeyCode::H => 'H',
            KeyCode::J => 'J',
            KeyCode::K => 'K',
            KeyCode::L => 'L',
            KeyCode::Semicolon => ';',
            KeyCode::Z => 'Z',
            KeyCode::X => 'X',
            KeyCode::C => 'C',
            KeyCode::V => 'V',
            KeyCode::B => 'B',
            KeyCode::N => 'N',
            KeyCode::M => 'M',
            KeyCode::Comma => ',',
            KeyCode::Dot => '.',
            KeyCode::Slash => '/',
        }
    }
}

/// The key whose index is `i`, for `0 <= i < 30`.
pub open spec fn key_of_index(i: int) -> KeyCode {
    if i == 0 {
        KeyCode::Q
    } else if i == 1 {
        KeyCode::W
    } else if i == 2 {
        KeyCode::E
    } else if i == 3 {
        KeyCode::R
    } else if i == 4 {
        KeyCode::T
    } else if i == 5 {
        KeyCode::Y
    } else if i == 6 {
        KeyCode::U
    } else if i == 7 {
        KeyCode::I
    } else if i == 8 {
        KeyCode::O
    } else if i == 9 {
        KeyCode::P
    } else if i == 10 {
        KeyCode::A
    } else if i == 11 {
        KeyCode::S
    } else if i == 12 {
        KeyCode::D
    } else if i == 13 {
        KeyCode::F
    } else if i == 14 {
        KeyCode::G
    } else if i == 15 {
        KeyCode::H
    } else if i == 16 {
        KeyCode::J
    } else if i == 17 {
        KeyCode::K
    } else if i == 18 {
        KeyCode::L
    } else if i == 19 {
        KeyCode::Semicolon
    } else if i == 20 {
        KeyCode::Z
    } else if i == 21 {
        KeyCode::X
    } else if i == 22 {
        KeyCode::C
    } else if i == 23 {
        KeyCode::V
    } else if i == 24 {
        KeyCode::B
    } else if i == 25 {
        KeyCode::N
    } else if i == 26 {
        KeyCode::M
    } else if i == 27 {
        KeyCode::Comma
    } else if i == 28 {
        KeyCode::Dot
    } else {
        KeyCode::Slash
    }
}

/// A complete assignment of a key to each of the 30 grid positions.
///
/// Row `0` is the top row, row `1` the middle row, row `2` the bottom row;
/// each row has columns `0..10`.
#[derive(Clone, Copy, Debug)]
pub struct KeyboardLayout {
    pub top_row: [KeyCode; 10],
    pub middle_row: [KeyCode; 10],
    pub bottom_row: [KeyCode; 10],
}

impl KeyboardLayout {
    /// All 30 keys of the layout in row-major order.
    pub open spec fn keys(self) -> Seq<KeyCode> {
        self.top_row@ + self.middle_row@ + self.bottom_row@
    }

    /// The key at row `row`, column `col`.
    pub open spec fn key_at_spec(self, row: int, col: int) -> KeyCode
        recommends
            0 <= row < 3,
            0 <= col < 10,
    {
        self.keys()[row * 10 + col]
    }

    /// No key occurs at two different positions (and hence, with 30 keys for
    /// 30 positions, every key occurs exactly once).
    pub open spec fn all_keys_distinct(self) -> bool {
        forall|i: int, j: int| 0 <= i < j < 30 ==> self.keys()[i] != self.keys()[j]
    }

    /// The layout is the reference (QWERTY) layout: position `i` in row-major
    /// order holds the key with index `i`.
    pub open spec fn is_reference(self) -> bool {
        forall|i: int| 0 <= i < 30 ==> (#[trigger] self.keys()[i]) == key_of_index(i)
    }

    /// The reference QWERTY layout, the fixed frame of reference for all
    /// timing measurements.
    pub fn qwerty() -> (l: KeyboardLayout)
        ensures
            l.is_reference(),
    {
        let l = KeyboardLayout {
            top_row: [
                KeyCode::Q,
                KeyCode::W,
                KeyCode::E,
                KeyCode::R,
                KeyCode::T,
                KeyCode::Y,
                KeyCode::U,
                KeyCode::I,
                KeyCode::O,
                KeyCode::P,
            ],
            middle_row: [
                KeyCode::A,
                KeyCode::S,
                KeyCode::D,
                KeyCode::F,
                KeyCode::G,
                KeyCode::H,
                KeyCode::J,
                KeyCode::K,
                KeyCode::L,
                KeyCode::Semicolon,
            ],
            bottom_row: [
                KeyCode::Z,
                KeyCode::X,
                KeyCode::C,
                KeyCode::V,
                KeyCode::B,
                KeyCode::N,
                KeyCode::M,
                KeyCode::Comma,
                KeyCode::Dot,
                KeyCode::Slash,
            ],
        };
        proof {
            assert forall|i: int| 0 <= i < 30 implies (#[trigger] l.keys()[i]) == key_of_index(i) by {
                if i < 10 {
                    assert(l.keys()[i] == l.top_row@[i]);
                } else if i < 20 {
                    assert(l.keys()[i] == l.middle_row@[i - 10]);
                } else {
                    assert(l.keys()[i] == l.bottom_row@[i - 20]);
                }
            }
        }
        l
    }

    /// Linear row-major scan for `key_code`; returns the first position that
    /// holds it, or `None` if the layout does not contain it at all.
    pub fn position_of(&self, key_code: KeyCode) -> (r: Option<(usize, usize)>)
        ensures
            match r {
                Some(p) => {
                    &&& p.0 < 3
                    &&& p.1 < 10
                    &&& self.key_at_spec(p.0 as int, p.1 as int) == key_code
                    &&& forall|i: int|
                        0 <= i < p.0 * 10 + p.1 ==> self.keys()[i] != key_code
                },
                None => forall|i: int| 0 <= i < 30 ==> self.keys()[i] != key_code,
            },
    {
        let mut row: usize = 0;
        while row < 3
            invariant
                row <= 3,
                forall|i: int| 0 <= i < row * 10 ==> self.keys()[i] != key_code,
            decreases 3 - row,
        {
            let mut col: usize = 0;
            while col < 10
                invariant
                    row < 3,
                    col <= 10,
                    forall|i: int| 0 <= i < row * 10 + col ==> self.keys()[i] != key_code,
                decreases 10 - col,
            {
                if self.key_at((row, col)) == key_code {
                    return Some((row, col));
                }
                col = col + 1;
            }
            row = row + 1;
        }
        None
    }

    /// Direct indexed lookup; the position must be inside the grid.
    pub fn key_at(&self, position: (usize, usize)) -> (k: KeyCode)
        requires
            position.0 < 3,
            position.1 < 10,
        ensures
            k == self.key_at_spec(position.0 as int, position.1 as int),
    {
        let (row_index, column_index) = position;
        let k = match row_index {
            0 => self.top_row[column_index],
            1 => self.middle_row[column_index],
            _ => self.bottom_row[column_index],
        };
        proof {
            if row_index == 0 {
                assert(self.keys()[row_index * 10 + column_index] == self.top_row@[column_index as int]);
            } else if row_index == 1 {
                assert(self.keys()[row_index * 10 + column_index] == self.middle_row@[column_index as int]);
            } else {
                assert(self.keys()[row_index * 10 + column_index] == self.bottom_row@[column_index as int]);
            }
        }
        k
    }

    /// Direct indexed mutation; the position must be inside the grid.
    /// Every other position keeps its key.
    pub fn set_key_at(&mut self, row_index: usize, column_index: usize, key_code: KeyCode)
        requires
            row_index < 3,
            column_index < 10,
        ensures
            final(self).key_at_spec(row_index as int, column_index as int) == key_code,
            forall|i: int|
                0 <= i < 30 && i != row_index * 10 + column_index ==> final(self).keys()[i]
                    == old(self).keys()[i],
    {
        match row_index {
            0 => self.top_row[column_index] = key_code,
            1 => self.middle_row[column_index] = key_code,
            _ => self.bottom_row[column_index] = key_code,
        }
        proof {
            assert forall|i: int|
                0 <= i < 30 && i != row_index * 10 + column_index implies self.keys()[i]
                == old(self).keys()[i] by {
                if i < 10 {
                    assert(self.keys()[i] == self.top_row@[i]);
                    assert(old(self).keys()[i] == old(self).top_row@[i]);
                } else if i < 20 {
                    assert(self.keys()[i] == self.middle_row@[i - 10]);
                    assert(old(self).keys()[i] == old(self).middle_row@[i - 10]);
                } else {
                    assert(self.keys()[i] == self.bottom_row@[i - 20]);
                    assert(old(self).keys()[i] == old(self).bottom_row@[i - 20]);
                }
            }
            let r = row_index as int;
            let c = column_index as int;
            if r == 0 {
                assert(self.keys()[r * 10 + c] == self.top_row@[c]);
            } else if r == 1 {
                assert(self.keys()[r * 10 + c] == self.middle_row@[c]);
            } else {
                assert(self.keys()[r * 10 + c] == self.bottom_row@[c]);
            }
        }
    }

    /// All 30 keys in row-major order, as a freshly allocated vector.
    pub fn iter(&self) -> (v: Vec<KeyCode>)
        ensures
            v@ == self.keys(),
    {
        let mut v: Vec<KeyCode> = Vec::new();
        let mut i: usize = 0;
        while i < 30
            invariant
                i <= 30,
                v@.len() == i,
                forall|j: int| 0 <= j < i ==> v@[j] == self.keys()[j],
            decreases 30 - i,
        {
            v.push(self.key_at((i / 10, i % 10)));
            proof {
                assert(self.key_at_spec((i / 10) as int, (i % 10) as int) == self.keys()[i as int]);
            }
            i = i + 1;
        }
        proof {
            assert(v@ =~= self.keys());
        }
        v
    }
}

impl Default for KeyboardLayout {
    /// The default layout is the reference QWERTY layout.
    fn default() -> (l: Self)
        ensures
            l.is_reference(),
    {
        KeyboardLayout::qwerty()
    }
}

/// In a reference layout, every key sits at the position its own index
/// names: row `index / 10`, column `index % 10`. Timing bookkeeping may
/// therefore resolve "the reference position of this key" by key index.
pub proof fn lemma_reference_key_positions(l: KeyboardLayout)
    requires
        l.is_reference(),
    ensures
        forall|k: KeyCode|
            l.key_at_spec(#[trigger] k.index_spec() / 10, k.index_spec() % 10) == k,
{
    lemma_key_index_bijective();
    assert forall|k: KeyCode|
        l.key_at_spec(#[trigger] k.index_spec() / 10, k.index_spec() % 10) == k by {
        let i = k.index_spec();
        assert((i / 10) * 10 + i % 10 == i);
        assert(l.keys()[i] == key_of_index(i));
    }
}

/// `key_of_index` and `index_spec` are inverse to each other on the 30 keys;
/// in particular two distinct keys never share an index.
pub proof fn lemma_key_index_bijective()
    ensures
        forall|k: KeyCode| key_of_index(#[trigger] k.index_spec()) == k,
        forall|i: int| 0 <= i < 30 ==> (#[trigger] key_of_index(i)).index_spec() == i,
{
}

} // verus!
