//! Shared helpers: hexadecimal encoding and decoding of byte strings,
//! the SHA-1 content digest, and small string utilities.

use vstd::prelude::*;
use vstd::string::*;

verus! {

/// The lower-case hexadecimal digit for a value below 16.
pub open spec fn hex_digit_char(n: u8) -> char
    recommends
        n < 16,
{
    if n < 10 {
        (('0' as u8) + n) as char
    } else {
        (('a' as u8) + (n - 10)) as char
    }
}

/// The two lower-case hexadecimal digits of one byte, high digit first.
pub open spec fn hex_pair(b: u8) -> Seq<char> {
    seq![hex_digit_char((b / 16) as u8), hex_digit_char((b % 16) as u8)]
}

/// Lower-case hexadecimal encoding of a byte string: two digits per
/// byte, no separators.
pub open spec fn hex_of(s: Seq<u8>) -> Seq<char>
    decreases s.len(),
{
    if s.len() == 0 {
        Seq::empty()
    } else {
        hex_of(s.drop_last()) + hex_pair(s.last())
    }
}

/// The value of one hexadecimal digit; upper and lower case are both
/// accepted.
pub open spec fn hex_val(c: char) -> Option<u8> {
    if '0' <= c && c <= '9' {
        Some(((c as u8) - ('0' as u8)) as u8)
    } else if 'a' <= c && c <= 'f' {
        Some(((c as u8) - ('a' as u8) + 10) as u8)
    } else if 'A' <= c && c <= 'F' {
        Some(((c as u8) - ('A' as u8) + 10) as u8)
    } else {
        None
    }
}

/// Decoding of a hexadecimal string: `Some` exactly when the length is
/// even and every character is a hexadecimal digit.
pub open spec fn unhex(s: Seq<char>) -> Option<Seq<u8>>
    decreases s.len(),
{
    if s.len() == 0 {
        Some(Seq::empty())
    } else if s.len() == 1 {
        None
    } else {
        match (hex_val(s[0]), hex_val(s[1])) {
            (Some(hi), Some(lo)) => match unhex(s.subrange(2, s.len() as int)) {
                Some(rest) => Some(seq![(hi * 16 + lo) as u8] + rest),
                None => None,
            },
            _ => None,
        }
    }
}

/// Relies on std's `String::push`: appends the given character at the
/// end of the string.
#[verifier::external_body]
pub fn push_char(s: &mut String, c: char)
    ensures
        final(s)@ == old(s)@.push(c),
{
    s.push(c);
}

/// The characters of a string as a vector, in order.
pub fn str_to_chars(s: &str) -> (r: Vec<char>)
    ensures
        r@ == s@,
{
    let n: usize = s.unicode_len();
    let mut r: Vec<char> = Vec::new();
    let mut i: usize = 0;
    while i < n
        invariant
            i <= n,
            n == s@.len(),
            r@ == s@.take(i as int),
        decreases n - i,
    {
        r.push(s.get_char(i));
        proof {
            assert(r@ =~= s@.take(i + 1));
        }
        i = i + 1;
    }
    proof {
        assert(r@ =~= s@);
    }
    r
}

pub fn hex_digit_exec(n: u8) -> (c: char)
    requires
        n < 16,
    ensures
        c == hex_digit_char(n),
{
    if n < 10 {
        (('0' as u8) + n) as char
    } else {
        (('a' as u8) + (n - 10)) as char
    }
}

/// Creates the lower-case hexadecimal string for an array of bytes.
pub fn to_hex_string(sha1: &[u8]) -> (r: String)
    ensures
        r@ == hex_of(sha1@),
{
    let mut r = String::new();
    let mut i: usize = 0;
    while i < sha1.len()
        invariant
            i <= sha1@.len(),
            r@ == hex_of(sha1@.take(i as int)),
        decreases sha1@.len() - i,
    {
        let b = sha1[i];
        push_char(&mut r, hex_digit_exec(b / 16));
        push_char(&mut r, hex_digit_exec(b % 16));
        proof {
            assert(sha1@.take(i + 1).drop_last() =~= sha1@.take(i as int));
            assert(sha1@.take(i + 1).last() == sha1@[i as int]);
            assert(r@ =~= hex_of(sha1@.take(i + 1)));
        }
        i = i + 1;
    }
    proof {
        assert(sha1@.take(sha1@.len() as int) =~= sha1@);
    }
    r
}

/// Decodes a hexadecimal string into raw bytes; `None` when the length
/// is odd or a character is not a hexadecimal digit.
pub fn from_hex_string(s: &str) -> (r: Option<Vec<u8>>)
    ensures
        match r {
            Some(v) => unhex(s@) == Some(v@),
            None => unhex(s@) is None,
        },
{
    let cs = str_to_chars(s);
    let n = cs.len();
    let mut acc: Vec<u8> = Vec::new();
    let mut i: usize = 0;
    proof {
        assert(s@.skip(0) =~= s@);
        if unhex(s@) is Some {
            assert(acc@ + unhex(s@).unwrap() =~= unhex(s@).unwrap());
        }
    }
    while i + 1 < n
        invariant
            i % 2 == 0,
            i <= n,
            n == cs@.len(),
            cs@ == s@,
            unhex(s@) == match unhex(s@.skip(i as int)) {
                Some(rest) => Some(acc@ + rest),
                None => None::<Seq<u8>>,
            },
        decreases n - i,
    {
        let hi = match hex_val_exec(cs[i]) {
            Some(v) => v,
            None => {
                proof {
                    reveal_unhex_step(s@, i as int);
                }
                return None;
            },
        };
        let lo = match hex_val_exec(cs[i + 1]) {
            Some(v) => v,
            None => {
                proof {
                    reveal_unhex_step(s@, i as int);
                }
                return None;
            },
        };
        proof {
            reveal_unhex_step(s@, i as int);
            let b = (hi * 16 + lo) as u8;
            if unhex(s@.skip(i as int + 2)) is Some {
                let rest2 = unhex(s@.skip(i as int + 2)).unwrap();
                assert(acc@.push(b) + rest2 =~= acc@ + (seq![b] + rest2));
            }
        }
        acc.push(hi * 16 + lo);
        i = i + 2;
    }
    if i < n {
        // an odd number of characters never decodes
        proof {
            assert(s@.skip(i as int).len() == 1);
        }
        return None;
    }
    proof {
        assert(s@.skip(i as int) =~= Seq::<char>::empty());
        assert(acc@ + Seq::<u8>::empty() =~= acc@);
    }
    Some(acc)
}

/// One unfolding of `unhex` at an even position: the remainder of the
/// string decodes exactly when its first two characters are digits and
/// the rest decodes.
proof fn reveal_unhex_step(s: Seq<char>, i: int)
    requires
        0 <= i,
        i + 1 < s.len(),
    ensures
        unhex(s.skip(i)) == match (hex_val(s[i]), hex_val(s[i + 1])) {
            (Some(hi), Some(lo)) => match unhex(s.skip(i + 2)) {
                Some(rest) => Some(seq![(hi * 16 + lo) as u8] + rest),
                None => None::<Seq<u8>>,
            },
            _ => None::<Seq<u8>>,
        },
{
    let t = s.skip(i);
    assert(t.len() >= 2);
    assert(t[0] == s[i]);
    assert(t[1] == s[i + 1]);
    assert(t.subrange(2, t.len() as int) =~= s.skip(i + 2));
}

pub fn hex_val_exec(c: char) -> (r: Option<u8>)
    ensures
        r == hex_val(c),
{
    if '0' <= c && c <= '9' {
        Some((c as u8) - ('0' as u8))
    } else if 'a' <= c && c <= 'f' {
        Some((c as u8) - ('a' as u8) + 10)
    } else if 'A' <= c && c <= 'F' {
        Some((c as u8) - ('A' as u8) + 10)
    } else {
        None
    }
}

/// What the SHA-1 digest of a byte string is; the content address of a
/// blob. Only `sha1_digest` gives this name a value.
pub uninterp spec fn sha1_of(data: Seq<u8>) -> Seq<u8>;

/// Relies on `ring::digest` with the SHA-1 algorithm: the digest is a
/// function of the input bytes alone and is always 20 bytes long.
#[verifier::external_body]
pub fn sha1_digest(data: &[u8]) -> (r: Vec<u8>)
    ensures
        r@ == sha1_of(data@),
        r@.len() == 20,
{
    let mut ctx = ring::digest::Context::new(&ring::digest::SHA1_FOR_LEGACY_USE_ONLY);
    ctx.update(data);
    ctx.finish().as_ref().to_vec()
}


/// Whether two string slices hold the same characters.
pub fn str_eq(a: &str, b: &str) -> (r: bool)
    ensures
        r == (a@ == b@),
{
    let na: usize = a.unicode_len();
    let nb: usize = b.unicode_len();
    if na != nb {
        return false;
    }
    let mut i: usize = 0;
    while i < na
        invariant
            i <= na,
            na == a@.len(),
            na == b@.len(),
            forall|k: int| 0 <= k < i ==> a@[k] == b@[k],
        decreases na - i,
    {
        if a.get_char(i) != b.get_char(i) {
            return false;
        }
        i = i + 1;
    }
    proof {
        assert(a@ =~= b@);
    }
    true
}

/// The characters of `s` between positions `i` and `j` as a string.
pub fn chars_range_to_string(s: &Vec<char>, i: usize, j: usize) -> (r: String)
    requires
        i <= j <= s@.len(),
    ensures
        r@ == s@.subrange(i as int, j as int),
{
    let mut r = String::new();
    let mut k = i;
    while k < j
        invariant
            i <= k <= j <= s@.len(),
            r@ == s@.subrange(i as int, k as int),
        decreases j - k,
    {
        push_char(&mut r, s[k]);
        proof {
            assert(r@ =~= s@.subrange(i as int, k + 1));
        }
        k = k + 1;
    }
    r
}

} // verus!

