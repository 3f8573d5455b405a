//! Object identifiers of the Weaviate backend.
use vstd::prelude::*;
use crate::stdtext::{hash_text, text_hash};

verus! {

pub open spec fn hex_char(d: nat) -> char {
    "0123456789abcdef"@[d as int]
}

/// The `w` lowest hexadecimal digits of `n`, most significant first.
pub open spec fn hex(n: nat, w: nat) -> Seq<char>
    decreases w,
{
    if w == 0 {
        Seq::empty()
    } else {
        hex(n / 16, (w - 1) as nat).push(hex_char(n % 16))
    }
}

/// The identifier made from a 64-bit hash `h`: its high 32 bits, bits 16 to
/// 31, its low 16 bits, its high 16 bits and its low 48 bits, in hexadecimal
/// groups of 8, 4, 4, 4 and 12 digits joined by `-`.
pub open spec fn uuid_text(h: u64) -> Seq<char> {
    hex(h as nat / 0x1_0000_0000, 8) + "-"@ + hex((h as nat / 0x1_0000) % 0x1_0000, 4) + "-"@
        + hex(h as nat % 0x1_0000, 4) + "-"@ + hex((h as nat / 0x1_0000_0000_0000) % 0x1_0000, 4)
        + "-"@ + hex(h as nat % 0x1_0000_0000_0000, 12)
}

fn push_hex(out: &mut String, n: u64, w: usize)
    ensures
        final(out)@ == old(out)@ + hex(n as nat, w as nat),
    decreases w,
{
    if w > 0 {
        push_hex(out, n / 16, w - 1);
        let d = (n % 16) as usize;
        let digits = "0123456789abcdef";
        proof {
            reveal_strlit("0123456789abcdef");
        }
        let c = digits.substring_char(d, d + 1);
        let ghost before = out@;
        out.append(c);
        assert(c@ =~= seq![hex_char((n % 16) as nat)]);
        assert(out@ =~= before + seq![hex_char((n % 16) as nat)]);
    } else {
        assert(out@ =~= old(out)@ + hex(n as nat, 0));
    }
}

/// A UUID-shaped identifier derived from the hash of `s` (see [`uuid_text`]).
pub fn uuid_from_string(s: &str) -> (r: String)
    ensures
        r@ == uuid_text(text_hash(s@)),
{
    let hash = hash_text(s);
    let mut out = String::new();
    push_hex(&mut out, hash / 0x1_0000_0000, 8);
    out.append("-");
    push_hex(&mut out, (hash / 0x1_0000) % 0x1_0000, 4);
    out.append("-");
    push_hex(&mut out, hash % 0x1_0000, 4);
    out.append("-");
    push_hex(&mut out, (hash / 0x1_0000_0000_0000) % 0x1_0000, 4);
    out.append("-");
    push_hex(&mut out, hash % 0x1_0000_0000_0000, 12);
    assert(out@ =~= uuid_text(hash));
    out
}

} // verus!
