//! Decoding of a raw 16-bit instruction word into its fixed sub-fields:
//! register indices X and Y, the immediate byte KK, the 12-bit address and
//! the low nibble N.

use vstd::prelude::*;

verus! {

/// A raw 16-bit instruction word.
#[derive(Copy, Clone)]
pub struct Opcode(pub u16);

/// The high nibble of the word, which selects the instruction family.
pub open spec fn op_class(w: u16) -> int {
    w as int / 0x1000
}

/// Register index X: bits 8-11.
pub open spec fn op_x(w: u16) -> int {
    (w as int / 0x100) % 16
}

/// Register index Y: bits 4-7.
pub open spec fn op_y(w: u16) -> int {
    (w as int / 0x10) % 16
}

/// The immediate byte KK: bits 0-7.
pub open spec fn op_kk(w: u16) -> u8 {
    (w as int % 0x100) as u8
}

/// The 12-bit address: bits 0-11.
pub open spec fn op_addr(w: u16) -> u16 {
    (w as int % 0x1000) as u16
}

/// The low nibble N: bits 0-3.
pub open spec fn op_n(w: u16) -> int {
    w as int % 0x10
}

/// The low byte, used to sub-classify the 0xE and 0xF families.
pub open spec fn op_low_byte(w: u16) -> int {
    w as int % 0x100
}

impl Opcode {
    /// Register index X, extracted by mask and shift.
    pub fn x(self) -> (r: usize)
        ensures
            r == op_x(self.0),
            r < 16,
    {
        let w = self.0;
        proof {
            assert((w & 0x0F00) >> 8 == (w / 0x100) % 16 && (w / 0x100) % 16 < 16)
                by (bit_vector);
        }
        ((w & 0x0F00) >> 8) as usize
    }

    /// Register index Y, extracted by mask and shift.
    pub fn y(self) -> (r: usize)
        ensures
            r == op_y(self.0),
            r < 16,
    {
        let w = self.0;
        proof {
            assert((w & 0x00F0) >> 4 == (w / 0x10) % 16 && (w / 0x10) % 16 < 16)
                by (bit_vector);
        }
        ((w & 0x00F0) >> 4) as usize
    }

    /// The immediate byte KK.
    pub fn kk(self) -> (r: u8)
        ensures
            r == op_kk(self.0),
    {
        let w = self.0;
        proof {
            assert(w & 0x00FF == w % 0x100) by (bit_vector);
        }
        (w & 0x00FF) as u8
    }

    /// The 12-bit address.
    pub fn addr(self) -> (r: u16)
        ensures
            r == op_addr(self.0),
            r < 0x1000,
    {
        let w = self.0;
        proof {
            assert(w & 0x0FFF == w % 0x1000 && w % 0x1000 < 0x1000) by (bit_vector);
        }
        w & 0x0FFF
    }

    /// The low nibble N, used by the draw instruction as the sprite height.
    pub fn n(self) -> (r: usize)
        ensures
            r == op_n(self.0),
            r < 16,
    {
        let w = self.0;
        proof {
            assert(w & 0x000F == w % 0x10 && w % 0x10 < 16) by (bit_vector);
        }
        (w & 0x000F) as usize
    }

    /// The high nibble, which selects the instruction family.
    pub fn class(self) -> (r: u16)
        ensures
            r == op_class(self.0),
            r < 16,
    {
        let w = self.0;
        proof {
            assert(w >> 12 == w / 0x1000 && w / 0x1000 < 16) by (bit_vector);
        }
        w >> 12
    }

    /// The low byte, which sub-classifies the 0xE and 0xF families.
    pub fn low_byte(self) -> (r: u16)
        ensures
            r == op_low_byte(self.0),
            r < 0x100,
    {
        let w = self.0;
        proof {
            assert(w & 0x00FF == w % 0x100 && w % 0x100 < 0x100) by (bit_vector);
        }
        w & 0x00FF
    }
}

/// The character of one decimal digit.
pub open spec fn digit_char(d: int) -> char {
    if d == 0 {
        '0'
    } else if d == 1 {
        '1'
    } else if d == 2 {
        '2'
    } else if d == 3 {
        '3'
    } else if d == 4 {
        '4'
    } else if d == 5 {
        '5'
    } else if d == 6 {
        '6'
    } else if d == 7 {
        '7'
    } else if d == 8 {
        '8'
    } else {
        '9'
    }
}

/// The decimal digits of `n`, most significant first, with no leading zero
/// except for zero itself.
pub open spec fn dec_rep(n: int) -> Seq<char>
    decreases n,
{
    if n < 10 {
        seq![digit_char(n)]
    } else {
        dec_rep(n / 10) + seq![digit_char(n % 10)]
    }
}

/// The diagnostic text carried by an invalid-opcode report: the raw word in
/// decimal between two fixed phrases.
pub open spec fn invalid_opcode_text(w: u16) -> Seq<char> {
    "OPCODE: "@ + dec_rep(w as int) + " NOT VALID"@
}

/// Appends the decimal digits of `n` to `s`.
fn push_decimal(s: &mut String, n: u16)
    ensures
        final(s)@ == old(s)@ + dec_rep(n as int),
    decreases n,
{
    if n >= 10 {
        push_decimal(s, n / 10);
    }
    let d = n % 10;
    if d == 0 {
        s.append("0");
    } else if d == 1 {
        s.append("1");
    } else if d == 2 {
        s.append("2");
    } else if d == 3 {
        s.append("3");
    } else if d == 4 {
        s.append("4");
    } else if d == 5 {
        s.append("5");
    } else if d == 6 {
        s.append("6");
    } else if d == 7 {
        s.append("7");
    } else if d == 8 {
        s.append("8");
    } else {
        s.append("9");
    }
    proof {
        reveal_strlit("0");
        reveal_strlit("1");
        reveal_strlit("2");
        reveal_strlit("3");
        reveal_strlit("4");
        reveal_strlit("5");
        reveal_strlit("6");
        reveal_strlit("7");
        reveal_strlit("8");
        reveal_strlit("9");
        assert(final(s)@ =~= old(s)@ + dec_rep(n as int));
    }
}

/// The diagnostic line for a word that matched no pattern of the semantics
/// table.
pub fn format_err(op: Opcode) -> (r: String)
    ensures
        r@ == invalid_opcode_text(op.0),
{
    let mut s = String::from_str("OPCODE: ");
    push_decimal(&mut s, op.0);
    s.append(" NOT VALID");
    proof {
        assert(s@ =~= invalid_opcode_text(op.0));
    }
    s
}

} // verus!
