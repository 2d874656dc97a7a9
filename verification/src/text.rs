//! Verified character-level string helpers used by the parser and the
//! platform matchers.

use vstd::prelude::*;

verus! {

/// Character-by-character string equality.
pub fn str_eq(a: &str, b: &str) -> (r: bool)
    ensures
        r == (a@ == b@),
{
    let na = a.unicode_len();
    let nb = b.unicode_len();
    if na != nb {
        return false;
    }
    let mut i: usize = 0;
    while i < na
        invariant
            na == a@.len(),
            nb == b@.len(),
            na == nb,
            0 <= i <= na,
            forall|j: int| 0 <= j < i ==> a@[j] == b@[j],
        decreases na - i,
    {
        if a.get_char(i) != b.get_char(i) {
            return false;
        }
        i = i + 1;
    }
    proof {
        assert(a@ =~= b@);
    }
    true
}

/// A decimal digit.
pub open spec fn is_digit(c: char) -> bool {
    '0' as u32 <= c as u32 && c as u32 <= '9' as u32
}

/// Folds decimal digits into a value, starting from `acc`; any non-digit
/// makes the whole string non-numeric.
pub open spec fn dec_fold(s: Seq<char>, acc: int) -> Option<int>
    decreases s.len(),
{
    if s.len() == 0 {
        Some(acc)
    } else if !is_digit(s.first()) {
        None
    } else {
        dec_fold(s.drop_first(), acc * 10 + (s.first() as u32 - '0' as u32))
    }
}

/// The numeric value of a non-empty, all-digit decimal string.
pub open spec fn dec_value(s: Seq<char>) -> Option<int> {
    if s.len() == 0 {
        None
    } else {
        dec_fold(s, 0)
    }
}

proof fn lemma_dec_fold_ge(s: Seq<char>, acc: int)
    requires
        acc >= 0,
        dec_fold(s, acc) is Some,
    ensures
        dec_fold(s, acc)->Some_0 >= acc,
    decreases s.len(),
{
    if s.len() > 0 {
        lemma_dec_fold_ge(s.drop_first(), acc * 10 + (s.first() as u32 - '0' as u32));
    }
}

/// Decodes a small decimal number: the value of a non-empty all-digit
/// string, where anything above the byte range counts as undecodable.
pub fn dec_u8(s: &str) -> (r: Option<u8>)
    ensures
        match r {
            Some(v) => dec_value(s@) == Some(v as int),
            None => dec_value(s@) is None || dec_value(s@)->Some_0 > 255,
        },
{
    let n = s.unicode_len();
    if n == 0 {
        return None;
    }
    let mut acc: u32 = 0;
    let mut i: usize = 0;
    proof {
        assert(s@.skip(0) =~= s@);
    }
    while i < n
        invariant
            n == s@.len(),
            0 <= i <= n,
            0 <= acc <= 255,
            dec_fold(s@, 0) == dec_fold(s@.skip(i as int), acc as int),
        decreases n - i,
    {
        let c = s.get_char(i);
        let u = c as u32;
        proof {
            assert(s@.skip(i as int).first() == s@[i as int]);
            assert(s@.skip(i as int).drop_first() =~= s@.skip(i as int + 1));
        }
        if !('0' as u32 <= u && u <= '9' as u32) {
            return None;
        }
        let d = u - '0' as u32;
        let next = acc * 10 + d;
        if next > 255 {
            proof {
                assert(dec_fold(s@.skip(i as int), acc as int) == dec_fold(
                    s@.skip(i as int + 1),
                    next as int,
                ));
                if dec_fold(s@.skip(i as int + 1), next as int) is Some {
                    lemma_dec_fold_ge(s@.skip(i as int + 1), next as int);
                }
            }
            return None;
        }
        acc = next;
        i = i + 1;
    }
    proof {
        assert(s@.skip(n as int) =~= Seq::<char>::empty());
    }
    Some(acc as u8)
}

/// Whether `p` is a prefix of `s`, character by character.
pub fn str_has_prefix(s: &str, p: &str) -> (r: bool)
    ensures
        r == (p@.len() <= s@.len() && s@.subrange(0, p@.len() as int) == p@),
{
    let np = p.unicode_len();
    let ns = s.unicode_len();
    if np > ns {
        return false;
    }
    let mut i: usize = 0;
    while i < np
        invariant
            np == p@.len(),
            ns == s@.len(),
            np <= ns,
            0 <= i <= np,
            forall|j: int| 0 <= j < i ==> s@[j] == p@[j],
        decreases np - i,
    {
        if s.get_char(i) != p.get_char(i) {
            proof {
                assert(s@.subrange(0, p@.len() as int)[i as int] == s@[i as int]);
            }
            return false;
        }
        i = i + 1;
    }
    proof {
        assert(s@.subrange(0, p@.len() as int) =~= p@);
    }
    true
}

} // verus!
