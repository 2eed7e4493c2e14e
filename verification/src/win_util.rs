//! Text for Windows API calls: UTF-16 with a terminating NUL.
use vstd::prelude::*;

verus! {

/// The UTF-16 code units of one character.
pub open spec fn utf16_units(c: char) -> Seq<u16> {
    let u = c as u32;
    if u < 0x10000 {
        seq![u as u16]
    } else {
        let v = u - 0x10000;
        seq![(0xD800 + v / 1024) as u16, (0xDC00 + v % 1024) as u16]
    }
}

/// `str::encode_utf16`.
pub open spec fn encode_utf16(s: Seq<char>) -> Seq<u16>
    decreases s.len(),
{
    if s.len() == 0 {
        Seq::empty()
    } else {
        encode_utf16(s.drop_last()) + utf16_units(s.last())
    }
}

/// `value` as UTF-16 code units followed by a NUL, as wide-string Windows
/// functions take it.
pub fn wide_null(value: &str) -> (r: Vec<u16>)
    ensures
        r@ == encode_utf16(value@).push(0),
{
    let chars = crate::text::to_chars(value);
    let mut r: Vec<u16> = Vec::new();
    let mut i: usize = 0;
    while i < chars.len()
        invariant
            i <= chars.len(),
            r@ == encode_utf16(chars@.take(i as int)),
        decreases chars.len() - i,
    {
        let c = chars[i];
        let ghost before = r@;
        let u = c as u32;
        if u < 0x10000 {
            r.push(u as u16);
        } else {
            let v = u - 0x10000;
            r.push((0xD800 + v / 1024) as u16);
            r.push((0xDC00 + v % 1024) as u16);
        }
        proof {
            let t = chars@.take(i + 1);
            assert(t.drop_last() =~= chars@.take(i as int));
            assert(t.last() == c);
            assert(r@ =~= before + utf16_units(c));
        }
        i = i + 1;
    }
    proof {
        assert(chars@.take(i as int) =~= value@);
    }
    r.push(0);
    r
}

proof fn lemma_units_nonzero(c: char)
    requires
        c as u32 != 0,
    ensures
        forall|i: int| 0 <= i < utf16_units(c).len() ==> #[trigger] utf16_units(c)[i] != 0,
{
    assert(c as int <= 0x10FFFF);
    assert((c as u32) as int == c as int);
}

/// Every code unit before the final NUL comes from a character; a text
/// without NUL characters gives no NUL before the end.
pub proof fn lemma_utf16_no_inner_nul(s: Seq<char>)
    requires
        forall|i: int| 0 <= i < s.len() ==> (#[trigger] s[i]) as u32 != 0,
    ensures
        forall|i: int| 0 <= i < encode_utf16(s).len() ==> #[trigger] encode_utf16(s)[i] != 0,
    decreases s.len(),
{
    if s.len() > 0 {
        let p = s.drop_last();
        assert forall|i: int| 0 <= i < p.len() implies (#[trigger] p[i]) as u32 != 0 by {
            assert(p[i] == s[i]);
        }
        lemma_utf16_no_inner_nul(p);
        let e = encode_utf16(s);
        let ep = encode_utf16(p);
        let u = utf16_units(s.last());
        assert(e == ep + u);
        lemma_units_nonzero(s.last());
        assert forall|i: int| 0 <= i < e.len() implies #[trigger] e[i] != 0 by {
            if i < ep.len() {
                assert(e[i] == ep[i]);
            } else {
                assert(e[i] == u[i - ep.len()]);
            }
        }
    }
}

} // verus!
