//! Byte-text helpers for submissions: marker detection, marker stripping
//! and whitespace trimming.
use vstd::prelude::*;

verus! {

/// ASCII whitespace.
pub open spec fn is_space(b: u8) -> bool {
    b == 32 || b == 9 || b == 10 || b == 13 || b == 11 || b == 12
}

/// `p` is an initial run of `c`.
pub open spec fn spec_is_prefix(p: Seq<u8>, c: Seq<u8>) -> bool {
    c.len() >= p.len() && c.take(p.len() as int) == p
}

/// `s` without its leading whitespace.
pub open spec fn spec_trim_front(s: Seq<u8>) -> Seq<u8>
    decreases s.len(),
{
    if s.len() > 0 && is_space(s[0]) {
        spec_trim_front(s.drop_first())
    } else {
        s
    }
}

/// `s` without its trailing whitespace.
pub open spec fn spec_trim_back(s: Seq<u8>) -> Seq<u8>
    decreases s.len(),
{
    if s.len() > 0 && is_space(s.last()) {
        spec_trim_back(s.drop_last())
    } else {
        s
    }
}

/// `s` without leading and trailing whitespace.
pub open spec fn spec_trim(s: Seq<u8>) -> Seq<u8> {
    spec_trim_back(spec_trim_front(s))
}

/// Dropping leading whitespace is taking the suffix from the first mark.
proof fn lemma_trim_front_skip(s: Seq<u8>, i: int)
    requires
        0 <= i <= s.len(),
        forall|k: int| 0 <= k < i ==> is_space(s[k]),
        i == s.len() || !is_space(s[i]),
    ensures
        spec_trim_front(s) == s.skip(i),
    decreases i,
{
    if i == 0 {
        assert(s.skip(0) =~= s);
    } else {
        lemma_trim_front_skip(s.drop_first(), i - 1);
        assert(s.drop_first().skip(i - 1) =~= s.skip(i));
    }
}

/// Dropping trailing whitespace is taking the prefix up to the last mark.
proof fn lemma_trim_back_take(s: Seq<u8>, i: int)
    requires
        0 <= i <= s.len(),
        forall|k: int| i <= k < s.len() ==> is_space(s[k]),
        i == 0 || !is_space(s[i - 1]),
    ensures
        spec_trim_back(s) == s.take(i),
    decreases s.len() - i,
{
    if i == s.len() {
        assert(s.take(i) =~= s);
    } else {
        lemma_trim_back_take(s.drop_last(), i);
        assert(s.drop_last().take(i) =~= s.take(i));
    }
}

/// Whether `c` starts with the marker `p`.
pub fn starts_with_bytes(c: &Vec<u8>, p: &Vec<u8>) -> (r: bool)
    ensures
        r == spec_is_prefix(p@, c@),
{
    if c.len() < p.len() {
        proof {
            assert(!spec_is_prefix(p@, c@));
        }
        return false;
    }
    let mut i: usize = 0;
    while i < p.len()
        invariant
            i <= p@.len() <= c@.len(),
            forall|k: int| 0 <= k < i ==> c@[k] == p@[k],
        decreases p@.len() - i,
    {
        if c[i] != p[i] {
            proof {
                assert(c@.take(p@.len() as int)[i as int] != p@[i as int]);
            }
            return false;
        }
        i += 1;
    }
    proof {
        assert(c@.take(p@.len() as int) =~= p@);
    }
    true
}

/// `c` from position `n` on, as a fresh text.
pub fn skip_bytes(c: &Vec<u8>, n: usize) -> (r: Vec<u8>)
    requires
        n <= c@.len(),
    ensures
        r@ == c@.skip(n as int),
{
    let mut r: Vec<u8> = Vec::new();
    let mut i: usize = n;
    while i < c.len()
        invariant
            n <= i <= c@.len(),
            r@ == c@.subrange(n as int, i as int),
        decreases c@.len() - i,
    {
        r.push(c[i]);
        proof {
            assert(c@.subrange(n as int, i + 1) =~= c@.subrange(n as int, i as int).push(
                c@[i as int],
            ));
        }
        i += 1;
    }
    proof {
        assert(c@.subrange(n as int, c@.len() as int) =~= c@.skip(n as int));
    }
    r
}

/// `c` without leading and trailing ASCII whitespace, as a fresh text.
pub fn trim_bytes(c: &Vec<u8>) -> (r: Vec<u8>)
    ensures
        r@ == spec_trim(c@),
{
    let mut a: usize = 0;
    while a < c.len() && is_space_byte(c[a])
        invariant
            a <= c@.len(),
            forall|k: int| 0 <= k < a ==> is_space(c@[k]),
        decreases c@.len() - a,
    {
        a += 1;
    }
    proof {
        lemma_trim_front_skip(c@, a as int);
    }
    let mut b: usize = c.len();
    while b > a && is_space_byte(c[b - 1])
        invariant
            a <= b <= c@.len(),
            forall|k: int| b <= k < c@.len() ==> is_space(c@[k]),
        decreases b,
    {
        b -= 1;
    }
    let ghost t = c@.skip(a as int);
    proof {
        assert forall|k: int| b - a <= k < t.len() implies is_space(t[k]) by {
            assert(t[k] == c@[k + a]);
        }
        if b > a {
            assert(t[b - a - 1] == c@[b - 1]);
        }
        lemma_trim_back_take(t, b - a);
        assert(t.take(b - a) =~= c@.subrange(a as int, b as int));
    }
    let mut r: Vec<u8> = Vec::new();
    let mut i: usize = a;
    while i < b
        invariant
            a <= i <= b <= c@.len(),
            r@ == c@.subrange(a as int, i as int),
        decreases b - i,
    {
        r.push(c[i]);
        proof {
            assert(c@.subrange(a as int, i + 1) =~= c@.subrange(a as int, i as int).push(
                c@[i as int],
            ));
        }
        i += 1;
    }
    r
}

/// ASCII whitespace test on a byte.
pub fn is_space_byte(b: u8) -> (r: bool)
    ensures
        r == is_space(b),
{
    b == 32 || b == 9 || b == 10 || b == 13 || b == 11 || b == 12
}


/// Whether two byte texts hold the same bytes.
pub fn bytes_eq(a: &Vec<u8>, b: &Vec<u8>) -> (r: bool)
    ensures
        r == (a@ == b@),
{
    if a.len() != b.len() {
        return false;
    }
    let mut i: usize = 0;
    while i < a.len()
        invariant
            i <= a@.len(),
            a@.len() == b@.len(),
            forall|j: int| 0 <= j < i ==> a@[j] == b@[j],
        decreases a@.len() - i,
    {
        if a[i] != b[i] {
            return false;
        }
        i += 1;
    }
    proof {
        assert(a@ =~= b@);
    }
    true
}

} // verus!
