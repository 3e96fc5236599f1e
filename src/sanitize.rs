//! Cleaning of captured terminal text: removal of ANSI/VT control sequences
//! (`ESC [ params letter`) and of zero-width formatting characters.
use vstd::prelude::*;
use crate::text::{chars_of, string_of};

verus! {

/// A character allowed among the parameters of a control sequence.
pub open spec fn is_param_char(c: char) -> bool {
    ('0' <= c && c <= '9') || c == ';'
}

/// An ASCII letter, which ends a control sequence.
pub open spec fn is_ascii_letter(c: char) -> bool {
    ('a' <= c && c <= 'z') || ('A' <= c && c <= 'Z')
}

/// First position at or after `j` that does not hold a parameter character.
pub open spec fn params_end(s: Seq<char>, j: int) -> int
    decreases s.len() - j,
{
    if 0 <= j < s.len() && is_param_char(s[j]) {
        params_end(s, j + 1)
    } else {
        j
    }
}

/// Length of the control sequence that starts `s`, or 0 when `s` does not
/// start with one.
pub open spec fn escape_len(s: Seq<char>) -> int {
    if s.len() >= 2 && s[0] == '\x1B' && s[1] == '[' {
        let e = params_end(s, 2);
        if e < s.len() && is_ascii_letter(s[e]) {
            e + 1
        } else {
            0
        }
    } else {
        0
    }
}

/// `params_end` never moves backwards and stays within the sequence.
pub proof fn lemma_params_end_bounds(s: Seq<char>, j: int)
    requires
        0 <= j,
    ensures
        j <= params_end(s, j),
        j <= s.len() ==> params_end(s, j) <= s.len(),
    decreases s.len() - j,
{
    if 0 <= j < s.len() && is_param_char(s[j]) {
        lemma_params_end_bounds(s, j + 1);
    }
}

/// A control sequence is at least three characters long and fits in `s`.
pub proof fn lemma_escape_len_bounds(s: Seq<char>)
    ensures
        0 <= escape_len(s) <= s.len(),
        escape_len(s) == 0 || escape_len(s) >= 3,
{
    if s.len() >= 2 {
        lemma_params_end_bounds(s, 2);
    }
}

/// `s` with every control sequence removed, scanning left to right: where a
/// sequence starts, it is dropped whole; elsewhere one character is kept.
pub open spec fn escapes_removed(s: Seq<char>) -> Seq<char>
    decreases s.len(),
{
    if s.len() == 0 {
        s
    } else if escape_len(s) > 0 {
        proof {
            lemma_escape_len_bounds(s);
        }
        escapes_removed(s.skip(escape_len(s)))
    } else {
        seq![s[0]] + escapes_removed(s.drop_first())
    }
}

/// The zero-width formatting characters U+200B..=U+200D and U+FEFF.
pub open spec fn is_zero_width(c: char) -> bool {
    ('\u{200B}' <= c && c <= '\u{200D}') || c == '\u{FEFF}'
}

/// `s` with its zero-width formatting characters dropped, order kept.
pub open spec fn without_zero_width(s: Seq<char>) -> Seq<char>
    decreases s.len(),
{
    if s.len() == 0 {
        s
    } else {
        let r = without_zero_width(s.drop_last());
        if is_zero_width(s.last()) {
            r
        } else {
            r.push(s.last())
        }
    }
}

/// The whole cleaning pass.
pub open spec fn sanitized(s: Seq<char>) -> Seq<char> {
    without_zero_width(escapes_removed(s))
}

/// No character of `t` is a zero-width formatting character.
pub open spec fn zero_width_free(t: Seq<char>) -> bool {
    forall|i: int| 0 <= i < t.len() ==> !is_zero_width(#[trigger] t[i])
}

/// No position of `t` starts a complete control sequence.
pub open spec fn escape_free(t: Seq<char>) -> bool {
    forall|i: int| 0 <= i < t.len() ==> escape_len(#[trigger] t.skip(i)) == 0
}

proof fn lemma_without_zero_width_free(s: Seq<char>)
    ensures
        zero_width_free(without_zero_width(s)),
        without_zero_width(s).len() <= s.len(),
    decreases s.len(),
{
    if s.len() > 0 {
        lemma_without_zero_width_free(s.drop_last());
    }
}

proof fn lemma_without_zero_width_keeps(t: Seq<char>)
    requires
        zero_width_free(t),
    ensures
        without_zero_width(t) == t,
    decreases t.len(),
{
    if t.len() > 0 {
        let d = t.drop_last();
        assert(zero_width_free(d)) by {
            assert forall|i: int| 0 <= i < d.len() implies !is_zero_width(#[trigger] d[i]) by {
                assert(d[i] == t[i]);
            }
        }
        lemma_without_zero_width_keeps(d);
        assert(!is_zero_width(t[t.len() - 1]));
        assert(d.push(t.last()) =~= t);
    }
}

proof fn lemma_escapes_removed_keeps(t: Seq<char>)
    requires
        escape_free(t),
    ensures
        escapes_removed(t) == t,
    decreases t.len(),
{
    if t.len() > 0 {
        assert(t.skip(0) =~= t);
        assert(escape_len(t.skip(0)) == 0);
        let d = t.drop_first();
        assert forall|i: int| 0 <= i < d.len() implies escape_len(#[trigger] d.skip(i)) == 0 by {
            assert(d.skip(i) =~= t.skip(i + 1));
        }
        lemma_escapes_removed_keeps(d);
        assert(seq![t[0]] + d =~= t);
    }
}

proof fn lemma_escapes_removed_shrinks(t: Seq<char>)
    ensures
        escapes_removed(t).len() <= t.len(),
        !escape_free(t) ==> escapes_removed(t).len() < t.len(),
    decreases t.len(),
{
    lemma_escape_len_bounds(t);
    if t.len() > 0 {
        if escape_len(t) > 0 {
            lemma_escapes_removed_shrinks(t.skip(escape_len(t)));
        } else {
            let d = t.drop_first();
            lemma_escapes_removed_shrinks(d);
            if !escape_free(t) {
                let i = choose|i: int| 0 <= i < t.len() && escape_len(#[trigger] t.skip(i)) != 0;
                assert(t.skip(0) =~= t);
                assert(escape_len(t.skip(0)) == 0);
                assert(i != 0);
                assert(d.skip(i - 1) =~= t.skip(i));
                assert(!escape_free(d));
            }
        }
    }
}

/// The cleaned text never holds a zero-width formatting character.
pub proof fn sanitized_has_no_zero_width(s: Seq<char>)
    ensures
        zero_width_free(sanitized(s)),
{
    lemma_without_zero_width_free(escapes_removed(s));
}

/// Cleaning is idempotent on every input whose cleaned text holds no complete
/// control sequence: cleaning that text again changes nothing.
pub proof fn sanitize_idempotent(s: Seq<char>)
    requires
        escape_free(sanitized(s)),
    ensures
        sanitized(sanitized(s)) == sanitized(s),
{
    let t = sanitized(s);
    sanitized_has_no_zero_width(s);
    lemma_escapes_removed_keeps(t);
    lemma_without_zero_width_keeps(t);
}

/// The inputs left out above are exactly those on which cleaning twice
/// differs from cleaning once: removing one sequence (or a zero-width
/// character) can bring the pieces of another together, as in
/// `ESC [ ESC [ 0 m m`.
pub proof fn sanitize_twice_differs(s: Seq<char>)
    requires
        !escape_free(sanitized(s)),
    ensures
        sanitized(sanitized(s)) != sanitized(s),
{
    let t = sanitized(s);
    lemma_escapes_removed_shrinks(t);
    lemma_without_zero_width_free(escapes_removed(t));
}

/// Relies on `regex::Regex::new`, which compiles the control-sequence
/// pattern `\x1B\[[0-9;]*[a-zA-Z]` (valid, so the result is `Ok`), and on
/// `regex::Regex::replace_all` with an empty replacement, which removes every
/// non-overlapping leftmost-first match.
#[verifier::external_body]
fn remove_matches(pattern: &str, s: &str) -> (r: String)
    requires
        pattern@ == r"\x1B\[[0-9;]*[a-zA-Z]"@,
    ensures
        r@ == escapes_removed(s@),
{
    regex::Regex::new(pattern).unwrap().replace_all(s, "").into_owned()
}

/// Drops zero-width formatting characters.
pub fn strip_zero_width(v: &Vec<char>) -> (r: Vec<char>)
    ensures
        r@ == without_zero_width(v@),
{
    let mut r: Vec<char> = Vec::new();
    let mut i: usize = 0;
    while i < v.len()
        invariant
            i <= v@.len(),
            r@ == without_zero_width(v@.take(i as int)),
        decreases v@.len() - i,
    {
        let c = v[i];
        assert(v@.take(i + 1).drop_last() =~= v@.take(i as int));
        if !(('\u{200B}' <= c && c <= '\u{200D}') || c == '\u{FEFF}') {
            r.push(c);
        }
        i += 1;
    }
    assert(v@.take(i as int) =~= v@);
    r
}

/// Removes control sequences, then zero-width characters.
pub fn sanitize(s: &str) -> (r: String)
    ensures
        r@ == sanitized(s@),
{
    let plain = remove_matches(r"\x1B\[[0-9;]*[a-zA-Z]", s);
    let v = chars_of(plain.as_str());
    let w = strip_zero_width(&v);
    string_of(&w)
}

} // verus!
