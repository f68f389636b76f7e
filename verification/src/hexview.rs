//! The Hex View's texts: each row's offset and the panel title.

use vstd::prelude::*;

use crate::text::{chars_of, hex_digits, hex_number_string, string_from_chars};

verus! {

/// `n` as `format!("{n:#010x}")` writes it: `0x`, then lowercase hex digits padded with leading
/// zeros to at least eight.
pub open spec fn offset_text(n: nat) -> Seq<char> {
    let d = hex_digits(n);
    let pad = if d.len() < 8 {
        8 - d.len()
    } else {
        0
    };
    "0x"@ + Seq::new(pad as nat, |i: int| '0') + d
}

/// The offset column text of the row starting at `address` (see [`offset_text`]).
pub fn row_offset_text(address: usize) -> (r: String)
    ensures
        r@ == offset_text(address as nat),
{
    let full = hex_number_string(address as u128);
    let s = chars_of(full.as_str());
    let ghost d = hex_digits(address as nat);
    proof {
        reveal_strlit("0x");
        assert(s@ == "0x"@ + d);
        assert(s@.skip(2) =~= d);
    }
    let n = s.len() - 2;
    let mut out: Vec<char> = Vec::new();
    out.push('0');
    out.push('x');
    let pad = if n < 8 {
        8 - n
    } else {
        0
    };
    let mut i: usize = 0;
    while i < pad
        invariant
            0 <= i <= pad,
            out@ == "0x"@ + Seq::new(i as nat, |j: int| '0'),
        decreases pad - i,
    {
        out.push('0');
        proof {
            assert(out@ =~= "0x"@ + Seq::new((i + 1) as nat, |j: int| '0'));
        }
        i = i + 1;
    }
    let mut k: usize = 2;
    while k < s.len()
        invariant
            2 <= k <= s@.len(),
            s@.skip(2) == d,
            out@ == "0x"@ + Seq::new(pad as nat, |j: int| '0') + d.take(k - 2),
        decreases s@.len() - k,
    {
        out.push(s[k]);
        proof {
            assert(d.take(k - 1) =~= d.take(k - 2).push(s@[k as int]));
        }
        k = k + 1;
    }
    proof {
        assert(d.take(d.len() as int) =~= d);
    }
    string_from_chars(out.as_slice())
}

/// The Hex View's title: where the cursor is and how to edit there, with the byte being typed
/// while an edit is under way, or how to open the view when it holds no bytes.
pub open spec fn title_text(cursor: Option<usize>, edit: Seq<char>) -> Seq<char> {
    match cursor {
        Some(a) => if edit.len() > 0 {
            "Hex View @ 0x"@ + hex_digits(a as nat) + " — editing byte: "@ + edit + "_"@
        } else {
            "Hex View @ 0x"@ + hex_digits(a as nat) + " — type hex digits, Enter to write"@
        },
        None => "Hex View — h: open at the selected match/cheat"@,
    }
}

/// The Hex View's title for the cursor's address (`None` with no bytes loaded) and the byte
/// edit in progress (see [`title_text`]).
pub fn view_title(cursor: Option<usize>, edit: &str) -> (r: String)
    ensures
        r@ == title_text(cursor, edit@),
{
    match cursor {
        Some(a) => {
            let full = hex_number_string(a as u128);
            let mut text = String::from_str("Hex View @ ");
            text.append(full.as_str());
            proof {
                reveal_strlit("Hex View @ ");
                reveal_strlit("0x");
                reveal_strlit("Hex View @ 0x");
                assert(text@ =~= "Hex View @ 0x"@ + hex_digits(a as nat));
            }
            if chars_of(edit).len() > 0 {
                text.append(" — editing byte: ");
                text.append(edit);
                text.append("_");
            } else {
                text.append(" — type hex digits, Enter to write");
            }
            text
        },
        None => String::from_str("Hex View — h: open at the selected match/cheat"),
    }
}

} // verus!
