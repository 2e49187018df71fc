//! Decimal formatting and small string helpers used across the library.

use vstd::prelude::*;
use vstd::string::StrSliceExecFns;

verus! {

pub const DEC_DIGITS: [char; 10] = ['0', '1', '2', '3', '4', '5', '6', '7', '8', '9'];

/// The decimal digits of `n`, most significant first, as ASCII bytes.
pub open spec fn dec_bytes(n: nat) -> Seq<u8>
    decreases n,
{
    if n < 10 {
        seq![(48 + n) as u8]
    } else {
        dec_bytes(n / 10) + seq![(48 + n % 10) as u8]
    }
}

/// The decimal digits of `n`, most significant first, as characters.
pub open spec fn dec_chars(n: nat) -> Seq<char>
    decreases n,
{
    if n < 10 {
        seq![DEC_DIGITS@[n as int]]
    } else {
        dec_chars(n / 10) + seq![DEC_DIGITS@[(n % 10) as int]]
    }
}

/// Writes `n` in decimal as characters.
pub fn u64_to_dec_chars(n: u64) -> (r: Vec<char>)
    ensures
        r@ == dec_chars(n as nat),
{
    let mut rev: Vec<char> = Vec::new();
    let mut m: u64 = n;
    loop
        invariant_except_break
            dec_chars(n as nat) == dec_chars(m as nat) + rev@.reverse(),
        ensures
            dec_chars(n as nat) == rev@.reverse(),
        decreases m,
    {
        let d: char = DEC_DIGITS[(m % 10) as usize];
        let next: u64 = m / 10;
        proof {
            if m >= 10 {
                assert(dec_chars(m as nat) == dec_chars((m as nat) / 10) + seq![
                    DEC_DIGITS@[((m as nat) % 10) as int],
                ]);
            }
            assert(rev@.push(d).reverse() =~= seq![d] + rev@.reverse());
        }
        rev.push(d);
        m = next;
        if m == 0 {
            break;
        }
    }
    let mut out: Vec<char> = Vec::new();
    let mut i: usize = rev.len();
    while i > 0
        invariant
            i <= rev.len(),
            out@ =~= rev@.subrange(i as int, rev@.len() as int).reverse(),
        decreases i,
    {
        i = i - 1;
        out.push(rev[i]);
        proof {
            assert(rev@.subrange(i as int, rev@.len() as int).reverse() =~= rev@.subrange(
                i + 1,
                rev@.len() as int,
            ).reverse().push(rev@[i as int]));
        }
    }
    proof {
        assert(rev@.subrange(0, rev@.len() as int) =~= rev@);
        assert(out@ =~= rev@.reverse());
    }
    out
}

/// Writes `n` in decimal as ASCII bytes (wide-counter variant).
pub fn u128_to_dec_bytes(n: u128) -> (r: Vec<u8>)
    ensures
        r@ == dec_bytes(n as nat),
{
    let mut rev: Vec<u8> = Vec::new();
    let mut m: u128 = n;
    loop
        invariant_except_break
            dec_bytes(n as nat) == dec_bytes(m as nat) + rev@.reverse(),
        ensures
            dec_bytes(n as nat) == rev@.reverse(),
        decreases m,
    {
        let d: u8 = (m % 10) as u8 + 48;
        let next: u128 = m / 10;
        proof {
            if m >= 10 {
                assert(dec_bytes(m as nat) == dec_bytes((m as nat) / 10) + seq![
                    (48 + (m as nat) % 10) as u8,
                ]);
            }
            assert(rev@.push(d).reverse() =~= seq![d] + rev@.reverse());
        }
        rev.push(d);
        m = next;
        if m == 0 {
            break;
        }
    }
    let mut out: Vec<u8> = Vec::new();
    let mut i: usize = rev.len();
    while i > 0
        invariant
            i <= rev.len(),
            out@ =~= rev@.subrange(i as int, rev@.len() as int).reverse(),
        decreases i,
    {
        i = i - 1;
        out.push(rev[i]);
        proof {
            assert(rev@.subrange(i as int, rev@.len() as int).reverse() =~= rev@.subrange(
                i + 1,
                rev@.len() as int,
            ).reverse().push(rev@[i as int]));
        }
    }
    proof {
        assert(rev@.subrange(0, rev@.len() as int) =~= rev@);
        assert(out@ =~= rev@.reverse());
    }
    out
}

/// Relies on core's char iteration (`str::chars` collected into a `Vec`):
/// the characters of the string, in order.
#[verifier::external_body]
pub fn string_to_chars(s: &str) -> (r: Vec<char>)
    ensures
        r@ == s@,
{
    s.chars().collect()
}

/// Relies on alloc's `FromIterator` for `String`: the string made of
/// exactly the given characters, in order.
#[verifier::external_body]
pub fn chars_to_string(v: &Vec<char>) -> (r: String)
    ensures
        r@ == v@,
{
    v.iter().collect()
}

/// The Unicode lower-casing of a string, as `str::to_lowercase` computes
/// it: a function of the characters alone.
pub uninterp spec fn lower_of(s: Seq<char>) -> Seq<char>;

/// Relies on str::to_lowercase: the result depends on the characters alone.
#[verifier::external_body]
pub fn lowercase(s: &str) -> (r: String)
    ensures
        r@ == lower_of(s@),
{
    s.to_lowercase()
}

/// Whether `p` occurs in `s` as a contiguous run.
pub open spec fn contains_seq(s: Seq<char>, p: Seq<char>) -> bool {
    exists|i: int| 0 <= i && i + p.len() <= s.len() && #[trigger] s.subrange(i, i + p.len()) == p
}

/// Substring search over character vectors.
pub fn find_sub(s: &Vec<char>, p: &Vec<char>) -> (r: bool)
    ensures
        r == contains_seq(s@, p@),
{
    if p.len() > s.len() {
        proof {
            assert(!contains_seq(s@, p@));
        }
        return false;
    }
    let bound: usize = s.len() - p.len();
    let mut i: usize = 0;
    loop
        invariant_except_break
            p@.len() <= s@.len(),
            bound == s@.len() - p@.len(),
            i <= bound,
            forall|k: int| 0 <= k < i ==> #[trigger] s@.subrange(k, k + p@.len()) != p@,
        ensures
            forall|k: int| 0 <= k <= bound ==> #[trigger] s@.subrange(k, k + p@.len()) != p@,
        decreases s@.len() - p@.len() - i,
    {
        let mut j: usize = 0;
        let mut hit = true;
        while j < p.len()
            invariant
                p@.len() <= s@.len(),
                i + p@.len() <= s@.len(),
                j <= p@.len(),
                hit ==> forall|t: int| 0 <= t < j ==> s@[i + t] == p@[t],
                !hit ==> s@.subrange(i as int, i + p@.len()) != p@,
            decreases p@.len() - j,
        {
            let sl = s.len();
            proof {
                assert(i + j < sl);
                if s@[i + j] != p@[j as int] {
                    if s@.subrange(i as int, i + p@.len()) == p@ {
                        assert(s@.subrange(i as int, i + p@.len())[j as int] == s@[i + j]);
                    }
                }
            }
            let idx: usize = i + j;
            if s[idx] != p[j] {
                hit = false;
            }
            j = j + 1;
        }
        if hit {
            proof {
                assert(s@.subrange(i as int, i + p@.len()) =~= p@);
            }
            return true;
        }
        if i == bound {
            break;
        }
        i = i + 1;
    }
    false
}

/// Character-by-character string equality.
pub fn str_eq(a: &str, b: &str) -> (r: bool)
    ensures
        r == (a@ == b@),
{
    let la = a.unicode_len();
    let lb = b.unicode_len();
    if la != lb {
        return false;
    }
    let mut i: usize = 0;
    while i < la
        invariant
            la == a@.len(),
            la == b@.len(),
            i <= la,
            forall|j: int| 0 <= j < i ==> a@[j] == b@[j],
        decreases la - i,
    {
        if a.get_char(i) != b.get_char(i) {
            return false;
        }
        i = i + 1;
    }
    proof {
        assert(a@ =~= b@);
    }
    true
}

/// Writes `n` in decimal as a `String`.
pub fn u64_to_string(n: u64) -> (r: String)
    ensures
        r@ == dec_chars(n as nat),
{
    let chars = u64_to_dec_chars(n);
    chars_to_string(&chars)
}

} // verus!
