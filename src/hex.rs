use vstd::prelude::*;

verus! {

/// The lower-case hexadecimal digit for `d`, which is below sixteen.
pub open spec fn hex_char(d: nat) -> char {
    if d < 10 {
        ((d + 48) as u8) as char
    } else {
        ((d + 87) as u8) as char
    }
}

/// The last `n` hexadecimal digits of `v`, most significant first.
pub open spec fn hex_digits(v: nat, n: nat) -> Seq<char>
    decreases n,
{
    if n == 0 {
        Seq::empty()
    } else {
        hex_digits(v / 16, (n - 1) as nat) + seq![hex_char(v % 16)]
    }
}

/// `v` as eight lower-case hexadecimal digits, zero-padded.
pub open spec fn hex8(v: u32) -> Seq<char> {
    hex_digits(v as nat, 8)
}

fn hex_digit(d: u32) -> (r: &'static str)
    requires
        d < 16,
    ensures
        r@ == seq![hex_char(d as nat)],
{
    match d {
        0 => {
            proof {
                reveal_strlit("0");
            }
            "0"
        },
        1 => {
            proof {
                reveal_strlit("1");
            }
            "1"
        },
        2 => {
            proof {
                reveal_strlit("2");
            }
            "2"
        },
        3 => {
            proof {
                reveal_strlit("3");
            }
            "3"
        },
        4 => {
            proof {
                reveal_strlit("4");
            }
            "4"
        },
        5 => {
            proof {
                reveal_strlit("5");
            }
            "5"
        },
        6 => {
            proof {
                reveal_strlit("6");
            }
            "6"
        },
        7 => {
            proof {
                reveal_strlit("7");
            }
            "7"
        },
        8 => {
            proof {
                reveal_strlit("8");
            }
            "8"
        },
        9 => {
            proof {
                reveal_strlit("9");
            }
            "9"
        },
        10 => {
            proof {
                reveal_strlit("a");
            }
            "a"
        },
        11 => {
            proof {
                reveal_strlit("b");
            }
            "b"
        },
        12 => {
            proof {
                reveal_strlit("c");
            }
            "c"
        },
        13 => {
            proof {
                reveal_strlit("d");
            }
            "d"
        },
        14 => {
            proof {
                reveal_strlit("e");
            }
            "e"
        },
        _ => {
            proof {
                reveal_strlit("f");
            }
            "f"
        },
    }
}

/// Appends `v` as eight lower-case hexadecimal digits, zero-padded.
pub fn push_hex8(s: &mut String, v: u32)
    ensures
        final(s)@ == old(s)@ + hex8(v),
{
    let n1 = v / 16;
    let n2 = n1 / 16;
    let n3 = n2 / 16;
    let n4 = n3 / 16;
    let n5 = n4 / 16;
    let n6 = n5 / 16;
    let n7 = n6 / 16;
    s.append(hex_digit(n7 % 16));
    s.append(hex_digit(n6 % 16));
    s.append(hex_digit(n5 % 16));
    s.append(hex_digit(n4 % 16));
    s.append(hex_digit(n3 % 16));
    s.append(hex_digit(n2 % 16));
    s.append(hex_digit(n1 % 16));
    s.append(hex_digit(v % 16));
    proof {
        reveal_with_fuel(hex_digits, 9);
        assert(hex8(v) =~= seq![
            hex_char((n7 % 16) as nat), hex_char((n6 % 16) as nat), hex_char((n5 % 16) as nat),
            hex_char((n4 % 16) as nat), hex_char((n3 % 16) as nat), hex_char((n2 % 16) as nat),
            hex_char((n1 % 16) as nat), hex_char((v % 16) as nat)
        ]);
    }
}

/// `v` as four lower-case hexadecimal digits, zero-padded; `v` below 0x10000.
pub open spec fn hex4(v: u32) -> Seq<char> {
    hex_digits(v as nat, 4)
}

/// Appends the last four hexadecimal digits of `v`, zero-padded.
pub fn push_hex4(s: &mut String, v: u32)
    ensures
        final(s)@ == old(s)@ + hex4(v),
{
    let n1 = v / 16;
    let n2 = n1 / 16;
    let n3 = n2 / 16;
    s.append(hex_digit(n3 % 16));
    s.append(hex_digit(n2 % 16));
    s.append(hex_digit(n1 % 16));
    s.append(hex_digit(v % 16));
    proof {
        reveal_with_fuel(hex_digits, 5);
        assert(hex4(v) =~= seq![
            hex_char((n3 % 16) as nat), hex_char((n2 % 16) as nat), hex_char((n1 % 16) as nat),
            hex_char((v % 16) as nat)
        ]);
    }
}

} // verus!
