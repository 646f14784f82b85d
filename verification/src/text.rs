//! Text that the contract writes into its replies: decimal numbers and
//! separated lists.
use vstd::prelude::*;
use vstd::string::*;

verus! {

/// The character of a decimal digit.
pub open spec fn digit_char(d: int) -> char {
    if d == 0 {
        '0'
    } else if d == 1 {
        '1'
    } else if d == 2 {
        '2'
    } else if d == 3 {
        '3'
    } else if d == 4 {
        '4'
    } else if d == 5 {
        '5'
    } else if d == 6 {
        '6'
    } else if d == 7 {
        '7'
    } else if d == 8 {
        '8'
    } else {
        '9'
    }
}

/// The decimal representation of `n`, most significant digit first, with no
/// leading zero (zero itself is `"0"`).
pub open spec fn decimal(n: nat) -> Seq<char>
    decreases n,
{
    if n < 10 {
        seq![digit_char(n as int)]
    } else {
        decimal(n / 10) + seq![digit_char((n % 10) as int)]
    }
}

/// `items` joined with `sep` between consecutive items.
pub open spec fn joined(items: Seq<Seq<char>>, sep: Seq<char>) -> Seq<char>
    decreases items.len(),
{
    if items.len() == 0 {
        Seq::empty()
    } else if items.len() == 1 {
        items[0]
    } else {
        joined(items.drop_last(), sep) + sep + items.last()
    }
}

fn digit_str(d: u8) -> (s: &'static str)
    requires
        d < 10,
    ensures
        s@ == seq![digit_char(d as int)],
{
    if d == 0 {
        proof { reveal_strlit("0"); }
        "0"
    } else if d == 1 {
        proof { reveal_strlit("1"); }
        "1"
    } else if d == 2 {
        proof { reveal_strlit("2"); }
        "2"
    } else if d == 3 {
        proof { reveal_strlit("3"); }
        "3"
    } else if d == 4 {
        proof { reveal_strlit("4"); }
        "4"
    } else if d == 5 {
        proof { reveal_strlit("5"); }
        "5"
    } else if d == 6 {
        proof { reveal_strlit("6"); }
        "6"
    } else if d == 7 {
        proof { reveal_strlit("7"); }
        "7"
    } else if d == 8 {
        proof { reveal_strlit("8"); }
        "8"
    } else {
        proof { reveal_strlit("9"); }
        "9"
    }
}

fn append_decimal(s: &mut String, n: u128)
    ensures
        final(s)@ == old(s)@ + decimal(n as nat),
    decreases n,
{
    if n >= 10 {
        append_decimal(s, n / 10);
    }
    let d: u8 = (n % 10) as u8;
    s.append(digit_str(d));
    proof {
        assert(old(s)@ + decimal(n as nat) =~= if n >= 10 {
            old(s)@ + decimal((n / 10) as nat) + seq![digit_char(d as int)]
        } else {
            old(s)@ + seq![digit_char(d as int)]
        });
    }
}

/// The decimal text of a 128-bit amount.
pub fn u128_to_text(n: u128) -> (s: String)
    ensures
        s@ == decimal(n as nat),
{
    let mut s = String::new();
    append_decimal(&mut s, n);
    assert(s@ =~= decimal(n as nat));
    s
}

/// The decimal text of a 64-bit number.
pub fn u64_to_text(n: u64) -> (s: String)
    ensures
        s@ == decimal(n as nat),
{
    u128_to_text(n as u128)
}

/// The character of a hexadecimal digit, in upper case.
pub open spec fn hex_digit(d: int) -> char {
    if d < 10 {
        digit_char(d)
    } else if d == 10 {
        'A'
    } else if d == 11 {
        'B'
    } else if d == 12 {
        'C'
    } else if d == 13 {
        'D'
    } else if d == 14 {
        'E'
    } else {
        'F'
    }
}

/// A byte as two upper-case hexadecimal digits.
pub open spec fn hex_byte(b: u8) -> Seq<char> {
    seq![hex_digit(b as int / 16), hex_digit(b as int % 16)]
}

/// A list of bytes as text: each byte as two upper-case hexadecimal digits,
/// separated by ", ", in square brackets.
pub open spec fn byte_list(bytes: Seq<u8>) -> Seq<char> {
    "["@ + joined(bytes.map_values(|b: u8| hex_byte(b)), ", "@) + "]"@
}

fn hex_str(d: u8) -> (s: &'static str)
    requires
        d < 16,
    ensures
        s@ == seq![hex_digit(d as int)],
{
    if d < 10 {
        digit_str(d)
    } else if d == 10 {
        proof { reveal_strlit("A"); }
        "A"
    } else if d == 11 {
        proof { reveal_strlit("B"); }
        "B"
    } else if d == 12 {
        proof { reveal_strlit("C"); }
        "C"
    } else if d == 13 {
        proof { reveal_strlit("D"); }
        "D"
    } else if d == 14 {
        proof { reveal_strlit("E"); }
        "E"
    } else {
        proof { reveal_strlit("F"); }
        "F"
    }
}

/// The text of a list of bytes: each byte as two upper-case hexadecimal
/// digits, separated by ", ", in square brackets.
pub fn byte_list_text(bytes: &Vec<u8>) -> (s: String)
    ensures
        s@ == byte_list(bytes@),
{
    let ghost hexes = bytes@.map_values(|b: u8| hex_byte(b));
    let mut s = String::new();
    s.append("[");
    let ghost start = s@;
    let n = bytes.len();
    let mut i: usize = 0;
    while i < n
        invariant
            n == bytes.len(),
            i <= n,
            hexes == bytes@.map_values(|b: u8| hex_byte(b)),
            s@ == start + joined(hexes.take(i as int), ", "@),
        decreases n - i,
    {
        if i != 0 {
            s.append(", ");
        }
        let b = bytes[i];
        s.append(hex_str(b / 16));
        s.append(hex_str(b % 16));
        proof {
            assert(hexes.take(i + 1).drop_last() =~= hexes.take(i as int));
            assert(hexes.take(i + 1).last() == hex_byte(b));
            if i == 0 {
                assert(hexes.take(0) =~= Seq::<Seq<char>>::empty());
                assert(joined(hexes.take(1), ", "@) == hexes.take(1)[0]);
            }
            assert(s@ =~= start + joined(hexes.take(i + 1), ", "@));
        }
        i = i + 1;
    }
    s.append("]");
    proof {
        assert(hexes.take(n as int) =~= hexes);
        assert(s@ =~= byte_list(bytes@));
    }
    s
}

/// The views of a list of strings.
pub open spec fn views(items: Seq<String>) -> Seq<Seq<char>> {
    items.map_values(|s: String| s@)
}

/// Appends the items of `items`, separated by `sep`, to `s`.
pub fn push_joined(s: &mut String, items: &Vec<String>, sep: &str)
    ensures
        final(s)@ == old(s)@ + joined(views(items@), sep@),
{
    let ghost start = s@;
    let n = items.len();
    let mut i: usize = 0;
    while i < n
        invariant
            n == items.len(),
            i <= n,
            s@ == start + joined(views(items@).take(i as int), sep@),
        decreases n - i,
    {
        let ghost before = s@;
        if i != 0 {
            s.append(sep);
        }
        s.append(items[i].as_str());
        proof {
            let v = views(items@);
            assert(v.take(i + 1).drop_last() =~= v.take(i as int));
            assert(v.take(i + 1).last() == items@[i as int]@);
            if i == 0 {
                assert(v.take(0) =~= Seq::<Seq<char>>::empty());
                assert(joined(v.take(1), sep@) == v.take(1)[0]);
            }
            assert(s@ =~= start + joined(v.take(i + 1), sep@));
        }
        i = i + 1;
    }
    proof {
        assert(views(items@).take(n as int) =~= views(items@));
    }
}

} // verus!
