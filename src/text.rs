//! Character-sequence helpers shared by the sanitizer, the verdict logic and
//! the locator.
use vstd::prelude::*;
use vstd::std_specs::iter::IteratorSpec;
use vstd::string::*;

verus! {

/// Copies the characters of `s` into a vector, in order.
pub fn chars_of(s: &str) -> (r: Vec<char>)
    ensures
        r@ == s@,
{
    broadcast use axiom_spec_iter, next_postcondition;
    let mut it = s.chars();
    let mut out: Vec<char> = Vec::new();
    loop
        invariant
            it.obeys_prophetic_iter_laws(),
            out@ + it.remaining() == s@,
            it.decrease() is Some,
        decreases it.decrease()->0,
    {
        match it.next() {
            Some(c) => {
                proof {
                    assert(out@.push(c) + it.remaining() =~= s@);
                }
                out.push(c);
            },
            None => {
                assert(out@ =~= s@);
                return out;
            },
        }
    }
}

/// Relies on `String`'s `FromIterator<&char>`: the characters are collected
/// in order.
#[verifier::external_body]
pub(crate) fn string_of(v: &Vec<char>) -> (r: String)
    ensures
        r@ == v@,
{
    v.iter().collect()
}

/// Appends the characters of `src` to `dst`.
pub fn append_chars(dst: &mut Vec<char>, src: &Vec<char>)
    ensures
        final(dst)@ == old(dst)@ + src@,
{
    let ghost base = dst@;
    let mut k: usize = 0;
    while k < src.len()
        invariant
            k <= src@.len(),
            dst@ == base + src@.take(k as int),
        decreases src@.len() - k,
    {
        dst.push(src[k]);
        assert(src@.take(k + 1) =~= src@.take(k as int).push(src@[k as int]));
        k += 1;
    }
    assert(src@.take(k as int) =~= src@);
}

/// `needle` occurs in `hay` starting at position `i`.
pub open spec fn occurs_at(hay: Seq<char>, needle: Seq<char>, i: int) -> bool {
    0 <= i && i + needle.len() <= hay.len() && hay.subrange(i, i + needle.len()) == needle
}

/// `needle` occurs somewhere in `hay` (the empty needle occurs everywhere).
pub open spec fn includes(hay: Seq<char>, needle: Seq<char>) -> bool {
    exists|i: int| occurs_at(hay, needle, i)
}

/// An occurrence inside a part of `w` is an occurrence in `w`.
pub proof fn lemma_includes_within(y: Seq<char>, n: Seq<char>, w: Seq<char>, at: int)
    requires
        includes(y, n),
        0 <= at,
        at + y.len() <= w.len(),
        w.subrange(at, at + y.len()) == y,
    ensures
        includes(w, n),
{
    let i = choose|i: int| occurs_at(y, n, i);
    assert(w.subrange(at + i, at + i + n.len()) =~= y.subrange(i, i + n.len()));
    assert(occurs_at(w, n, at + i));
}

/// Every sequence includes itself.
pub proof fn lemma_includes_self(n: Seq<char>)
    ensures
        includes(n, n),
{
    assert(n.subrange(0, n.len() as int) =~= n);
    assert(occurs_at(n, n, 0));
}

/// Substring test over character vectors.
pub fn has_part(hay: &Vec<char>, needle: &Vec<char>) -> (r: bool)
    ensures
        r == includes(hay@, needle@),
{
    if needle.len() > hay.len() {
        return false;
    }
    let n = needle.len();
    let hl = hay.len();
    let mut i: usize = 0;
    while i <= hay.len() - n
        invariant
            n == needle@.len(),
            n <= hay@.len(),
            hl == hay@.len(),
            i <= hay@.len() - n + 1,
            forall|k: int| 0 <= k < i ==> !occurs_at(hay@, needle@, k),
        decreases hay@.len() - i,
    {
        let mut j: usize = 0;
        let mut same = true;
        while j < n && same
            invariant
                n == needle@.len(),
                i + n <= hay@.len(),
                hl == hay@.len(),
                j <= n,
                same == (forall|t: int| 0 <= t < j ==> hay@[i + t] == needle@[t]),
            decreases n - j,
        {
            if hay[i + j] != needle[j] {
                same = false;
            }
            j += 1;
        }
        if same {
            assert(hay@.subrange(i as int, i + n) =~= needle@);
            assert(occurs_at(hay@, needle@, i as int));
            return true;
        }
        assert(!occurs_at(hay@, needle@, i as int)) by {
            if occurs_at(hay@, needle@, i as int) {
                assert forall|t: int| 0 <= t < j implies hay@[i + t] == needle@[t] by {
                    assert(hay@.subrange(i as int, i + n)[t] == hay@[i + t]);
                }
            }
        }
        i += 1;
    }
    assert forall|k: int| !occurs_at(hay@, needle@, k) by {
        if 0 <= k && k >= i {
            assert(k + n > hay@.len());
        }
    }
    false
}

/// The character of a decimal digit.
pub open spec fn digit_char(d: nat) -> char {
    if d == 0 { '0' }
    else if d == 1 { '1' }
    else if d == 2 { '2' }
    else if d == 3 { '3' }
    else if d == 4 { '4' }
    else if d == 5 { '5' }
    else if d == 6 { '6' }
    else if d == 7 { '7' }
    else if d == 8 { '8' }
    else { '9' }
}

/// Decimal digits of a natural number, most significant first, no leading zeros.
pub open spec fn digits(n: nat) -> Seq<char>
    decreases n,
{
    if n < 10 {
        seq![digit_char(n)]
    } else {
        digits(n / 10) + seq![digit_char(n % 10)]
    }
}

/// Decimal text of an integer, with a leading `-` when negative.
pub open spec fn decimal(n: int) -> Seq<char> {
    if n < 0 {
        seq!['-'] + digits((-n) as nat)
    } else {
        digits(n as nat)
    }
}

fn digit(d: u64) -> (c: char)
    requires
        d < 10,
    ensures
        c == digit_char(d as nat),
{
    if d == 0 { '0' }
    else if d == 1 { '1' }
    else if d == 2 { '2' }
    else if d == 3 { '3' }
    else if d == 4 { '4' }
    else if d == 5 { '5' }
    else if d == 6 { '6' }
    else if d == 7 { '7' }
    else if d == 8 { '8' }
    else { '9' }
}

/// Writes `n` in decimal.
pub fn decimal_of(n: i32) -> (r: Vec<char>)
    ensures
        r@ == decimal(n as int),
{
    let wide: i64 = n as i64;
    let mut m: u64 = if wide < 0 { (-wide) as u64 } else { wide as u64 };
    let ghost whole: nat = m as nat;
    let mut tail: Vec<char> = Vec::new();
    while m >= 10
        invariant
            digits(whole) == digits(m as nat) + tail@,
        decreases m,
    {
        let c = digit(m % 10);
        let ghost before = tail@;
        tail.insert(0, c);
        proof {
            assert(tail@ =~= seq![c] + before);
            assert(digits(m as nat) == digits((m / 10) as nat) + seq![c]);
            assert(digits((m / 10) as nat) + seq![c] + before =~= digits((m / 10) as nat) + tail@);
        }
        m = m / 10;
    }
    let mut r: Vec<char> = Vec::new();
    if wide < 0 {
        r.push('-');
    }
    r.push(digit(m));
    let mut k: usize = 0;
    while k < tail.len()
        invariant
            k <= tail@.len(),
            r@ == (if wide < 0 { seq!['-'] } else { Seq::<char>::empty() }) + digits(m as nat) + tail@.take(k as int),
        decreases tail@.len() - k,
    {
        r.push(tail[k]);
        assert(tail@.take(k + 1) =~= tail@.take(k as int).push(tail@[k as int]));
        k += 1;
    }
    assert(tail@.take(k as int) =~= tail@);
    assert(r@ =~= decimal(n as int));
    r
}

} // verus!
