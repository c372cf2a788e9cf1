//! The human-comparable fingerprint form: 16 bytes rendered as eight groups
//! of four uppercase hex digits, the groups separated by single spaces.

use vstd::prelude::*;

verus! {

use vstd::arithmetic::div_mod::lemma_fundamental_div_mod_converse;
use vstd::string::StringExecFns;

/// The uppercase hex digit for a nibble value.
pub open spec fn hexc(d: int) -> char {
    if d == 0 {
        '0'
    } else if d == 1 {
        '1'
    } else if d == 2 {
        '2'
    } else if d == 3 {
        '3'
    } else if d == 4 {
        '4'
    } else if d == 5 {
        '5'
    } else if d == 6 {
        '6'
    } else if d == 7 {
        '7'
    } else if d == 8 {
        '8'
    } else if d == 9 {
        '9'
    } else if d == 10 {
        'A'
    } else if d == 11 {
        'B'
    } else if d == 12 {
        'C'
    } else if d == 13 {
        'D'
    } else if d == 14 {
        'E'
    } else {
        'F'
    }
}

pub open spec fn is_upper_hex(c: char) -> bool {
    ('0' <= c && c <= '9') || ('A' <= c && c <= 'F')
}

/// The character at position `i` of the fingerprint of 16 bytes `h`: every
/// fifth position a space, otherwise the next nibble, high before low.
pub open spec fn fp_char(h: Seq<u8>, i: int) -> char {
    let g = i / 5;
    let o = i % 5;
    if o == 4 {
        ' '
    } else {
        let b = h[2 * g + (if o >= 2 {
            1int
        } else {
            0int
        })] as int;
        if o % 2 == 0 {
            hexc(b / 16)
        } else {
            hexc(b % 16)
        }
    }
}

/// The 39-character fingerprint of 16 bytes.
pub open spec fn fp_format(h: Seq<u8>) -> Seq<char> {
    Seq::new(39, |i: int| fp_char(h, i))
}

/// The shape the fingerprint always has: 39 characters, a single space at
/// every fifth position, an uppercase hex digit everywhere else — 32 digits
/// and 7 spaces in all.
pub proof fn lemma_fingerprint_shape(h: Seq<u8>)
    requires
        h.len() == 16,
    ensures
        fp_format(h).len() == 39,
        forall|i: int|
            0 <= i < 39 ==> if i % 5 == 4 {
                #[trigger] fp_format(h)[i] == ' '
            } else {
                is_upper_hex(fp_format(h)[i])
            },
{
    assert forall|i: int| 0 <= i < 39 implies if i % 5 == 4 {
        #[trigger] fp_format(h)[i] == ' '
    } else {
        is_upper_hex(fp_format(h)[i])
    } by {
        let g = i / 5;
        let o = i % 5;
        assert(0 <= o < 5);
        assert(0 <= g <= 7);
        if o != 4 {
            let b = h[2 * g + (if o >= 2 {
                1int
            } else {
                0int
            })] as int;
            assert(0 <= b / 16 < 16);
            assert(0 <= b % 16 < 16);
            assert(is_upper_hex(hexc(b / 16)));
            assert(is_upper_hex(hexc(b % 16)));
        }
    }
}

fn hex_str(nib: u8) -> (r: &'static str)
    requires
        nib < 16,
    ensures
        r@ == seq![hexc(nib as int)],
{
    proof {
        reveal_strlit("0");
        reveal_strlit("1");
        reveal_strlit("2");
        reveal_strlit("3");
        reveal_strlit("4");
        reveal_strlit("5");
        reveal_strlit("6");
        reveal_strlit("7");
        reveal_strlit("8");
        reveal_strlit("9");
        reveal_strlit("A");
        reveal_strlit("B");
        reveal_strlit("C");
        reveal_strlit("D");
        reveal_strlit("E");
        reveal_strlit("F");
    }
    let r = match nib {
        0 => "0",
        1 => "1",
        2 => "2",
        3 => "3",
        4 => "4",
        5 => "5",
        6 => "6",
        7 => "7",
        8 => "8",
        9 => "9",
        10 => "A",
        11 => "B",
        12 => "C",
        13 => "D",
        14 => "E",
        _ => "F",
    };
    proof {
        assert(r@ =~= seq![hexc(nib as int)]);
    }
    r
}

/// Formats 16 bytes as the fingerprint string.
pub fn format_fingerprint(h: &[u8]) -> (r: String)
    requires
        h@.len() == 16,
    ensures
        r@ == fp_format(h@),
{
    let mut s = String::new();
    for g in 0..8usize
        invariant
            h@.len() == 16,
            s@.len() == if g < 8 {
                5 * g as int
            } else {
                39
            },
            forall|j: int| 0 <= j < s@.len() ==> #[trigger] s@[j] == fp_char(h@, j),
    {
        let b0 = h[2 * g];
        let b1 = h[2 * g + 1];
        let ghost base = 5 * g as int;
        s.append(hex_str(b0 / 16));
        s.append(hex_str(b0 % 16));
        s.append(hex_str(b1 / 16));
        s.append(hex_str(b1 % 16));
        if g < 7 {
            proof {
                reveal_strlit(" ");
            }
            s.append(" ");
        }
        proof {
            assert forall|j: int| 0 <= j < s@.len() implies #[trigger] s@[j] == fp_char(h@, j) by {
                if j < base {
                } else {
                    let o = j - base;
                    assert(0 <= o < 5);
                    lemma_fundamental_div_mod_converse(j, 5, g as int, o);
                    assert(j / 5 == g as int && j % 5 == o);
                    if o == 0 {
                        assert(s@[j] == hexc(b0 as int / 16));
                    } else if o == 1 {
                        assert(s@[j] == hexc(b0 as int % 16));
                    } else if o == 2 {
                        assert(s@[j] == hexc(b1 as int / 16));
                    } else if o == 3 {
                        assert(s@[j] == hexc(b1 as int % 16));
                    } else {
                        assert(s@[j] == ' ');
                    }
                }
            }
        }
    }
    proof {
        assert(s@ =~= fp_format(h@));
    }
    s
}

} // verus!
