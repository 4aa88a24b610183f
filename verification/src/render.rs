//! The text form of a vector: its logical bytes in decimal, each right-aligned
//! in three columns, separated by ", " and enclosed in brackets.
use vstd::prelude::*;

verus! {

/// The ASCII digit for `d`, for `0 <= d < 10`.
pub open spec fn digit_char(d: int) -> char {
    (48 + d) as char
}

/// `b` in decimal, right-aligned in three columns.
pub open spec fn pad3(b: u8) -> Seq<char> {
    let h = digit_char((b / 100) as int);
    let t = digit_char(((b / 10) % 10) as int);
    let o = digit_char((b % 10) as int);
    if b < 10 {
        seq![' ', ' ', o]
    } else if b < 100 {
        seq![' ', t, o]
    } else {
        seq![h, t, o]
    }
}

/// The bytes of `s` as `pad3` texts separated by ", ".
pub open spec fn render_items(s: Seq<u8>) -> Seq<char>
    decreases s.len(),
{
    if s.len() == 0 {
        Seq::empty()
    } else if s.len() == 1 {
        pad3(s[0])
    } else {
        render_items(s.drop_last()) + seq![',', ' '] + pad3(s.last())
    }
}

/// The bracketed text of the bytes `s`.
pub open spec fn render(s: Seq<u8>) -> Seq<char> {
    seq!['['] + render_items(s) + seq![']']
}

/// The one-character text of the digit `d`.
fn digit_str(d: u8) -> (r: &'static str)
    requires
        d < 10,
    ensures
        r@ == seq![digit_char(d as int)],
{
    proof {
        reveal_strlit("0");
        reveal_strlit("1");
        reveal_strlit("2");
        reveal_strlit("3");
        reveal_strlit("4");
        reveal_strlit("5");
        reveal_strlit("6");
        reveal_strlit("7");
        reveal_strlit("8");
        reveal_strlit("9");
    }
    match d {
        0 => "0",
        1 => "1",
        2 => "2",
        3 => "3",
        4 => "4",
        5 => "5",
        6 => "6",
        7 => "7",
        8 => "8",
        _ => "9",
    }
}

/// Appends `pad3(b)` to `s`.
pub fn append_pad3(s: &mut String, b: u8)
    ensures
        final(s)@ == old(s)@ + pad3(b),
{
    proof {
        reveal_strlit("  ");
        reveal_strlit(" ");
    }
    let h = b / 100;
    let t = (b / 10) % 10;
    let o = b % 10;
    if b < 10 {
        s.append("  ");
        s.append(digit_str(o));
    } else if b < 100 {
        s.append(" ");
        s.append(digit_str(t));
        s.append(digit_str(o));
    } else {
        s.append(digit_str(h));
        s.append(digit_str(t));
        s.append(digit_str(o));
    }
    assert(s@ =~= old(s)@ + pad3(b));
}

/// The text `render(data[0..len])`.
pub fn render_bytes(data: &Vec<u8>, len: usize) -> (r: String)
    requires
        len <= data@.len(),
    ensures
        r@ == render(data@.subrange(0, len as int)),
{
    proof {
        reveal_strlit("[");
        reveal_strlit("]");
        reveal_strlit(", ");
    }
    let mut s = String::new();
    s.append("[");
    let mut i: usize = 0;
    while i < len
        invariant
            i <= len,
            len <= data@.len(),
            s@ == seq!['['] + render_items(data@.subrange(0, i as int)),
        decreases len - i,
    {
        let ghost before = s@;
        proof {
            reveal_strlit(", ");
        }
        if i > 0 {
            s.append(", ");
        }
        append_pad3(&mut s, data[i]);
        proof {
            let t = data@.subrange(0, i + 1);
            assert(t.drop_last() =~= data@.subrange(0, i as int));
            if i == 0 {
                assert(s@ =~= seq!['['] + render_items(t));
            } else {
                assert(t.last() == data@[i as int]);
                assert(render_items(t) == render_items(t.drop_last()) + seq![',', ' '] + pad3(
                    t.last(),
                ));
                assert(s@ == before + seq![',', ' '] + pad3(data@[i as int]));
                assert(s@ =~= seq!['['] + render_items(t));
            }
        }
        i = i + 1;
    }
    s.append("]");
    s
}

} // verus!
