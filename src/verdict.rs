//! Reconciling a process's exit code with the failure markers in its output,
//! and building the structured result handed to the front-end.
use vstd::prelude::*;
use crate::sanitize::{sanitize, sanitized};
use crate::text::{
    append_chars, chars_of, decimal, decimal_of, has_part, includes, lemma_includes_self,
    lemma_includes_within, occurs_at, string_of,
};

verus! {

/// Substrings of the cleaned standard output that reveal a failure.
pub open spec fn stdout_markers() -> Seq<Seq<char>> {
    seq![
        "\u{2717} "@,
        "Authentication failed"@,
        "Wrong password"@,
        "File corrupted"@,
        "Failed to"@,
        "Error:"@,
    ]
}

/// Substrings of the cleaned standard error that reveal a failure.
pub open spec fn stderr_markers() -> Seq<Seq<char>> {
    seq!["error"@, "failed"@]
}

/// Substrings that mark a line of standard output as worth reporting.
pub open spec fn line_markers() -> Seq<Seq<char>> {
    seq!["\u{2717} "@, "Error"@, "failed"@]
}

/// Some marker of `ms` occurs in `hay`.
pub open spec fn includes_any(hay: Seq<char>, ms: Seq<Seq<char>>) -> bool {
    exists|k: int| 0 <= k < ms.len() && includes(hay, #[trigger] ms[k])
}

/// The output shows a failure, whatever the exit code said.
pub open spec fn has_error_marker(out: Seq<char>, err: Seq<char>) -> bool {
    includes_any(out, stdout_markers()) || includes_any(err, stderr_markers())
}

/// The exit code reported, or -1 where the process gave none.
pub open spec fn exit_code_of(code: Option<i32>) -> i32 {
    match code {
        Some(c) => c,
        None => -1i32,
    }
}

/// The run succeeded: it exited with code 0 and its output shows no failure.
pub open spec fn verdict(code: Option<i32>, out: Seq<char>, err: Seq<char>) -> bool {
    code == Some(0i32) && !has_error_marker(out, err)
}

/// Position of the first `\n` at or after `i`, or the length of `s`.
pub open spec fn line_end(s: Seq<char>, i: int) -> int
    decreases s.len() - i,
{
    if 0 <= i < s.len() && s[i] != '\n' {
        line_end(s, i + 1)
    } else {
        i
    }
}

/// `line_end` does not move backwards and stays within the sequence.
pub proof fn lemma_line_end_bounds(s: Seq<char>, i: int)
    requires
        0 <= i <= s.len(),
    ensures
        i <= line_end(s, i) <= s.len(),
        line_end(s, i) < s.len() ==> s[line_end(s, i)] == '\n',
        forall|k: int| i <= k < line_end(s, i) ==> s[k] != '\n',
    decreases s.len() - i,
{
    if i < s.len() && s[i] != '\n' {
        lemma_line_end_bounds(s, i + 1);
    }
}

/// The line that starts at `i`, without its line ending; a `\r` right
/// before the `\n` belongs to the ending.
pub open spec fn line_at(s: Seq<char>, i: int) -> Seq<char> {
    let e = line_end(s, i);
    let raw = s.subrange(i, e);
    if e < s.len() && raw.len() > 0 && raw.last() == '\r' {
        raw.drop_last()
    } else {
        raw
    }
}

/// The lines from position `i` on that hold a line marker, in order.
pub open spec fn error_lines_from(s: Seq<char>, i: int) -> Seq<Seq<char>>
    decreases s.len() + 1 - i,
{
    if i < 0 || i >= s.len() {
        seq![]
    } else {
        proof {
            lemma_line_end_bounds(s, i);
        }
        let e = line_end(s, i);
        let rest = error_lines_from(s, e + 1);
        if includes_any(line_at(s, i), line_markers()) {
            seq![line_at(s, i)] + rest
        } else {
            rest
        }
    }
}

/// The lines joined with `\n` between them.
pub open spec fn join_lines(ls: Seq<Seq<char>>) -> Seq<char>
    decreases ls.len(),
{
    if ls.len() == 0 {
        seq![]
    } else if ls.len() == 1 {
        ls[0]
    } else {
        join_lines(ls.drop_last()) + seq!['\n'] + ls.last()
    }
}

/// The message reported for a failed run.
pub open spec fn failure_text(code: Option<i32>, out: Seq<char>, err: Seq<char>) -> Seq<char> {
    if err.len() > 0 {
        err
    } else if has_error_marker(out, err) {
        join_lines(error_lines_from(out, 0))
    } else {
        "Command failed with exit code "@ + decimal(exit_code_of(code) as int)
    }
}

/// The structured outcome of one run of the tool.
pub struct CommandResult {
    pub success: bool,
    pub stdout: String,
    pub stderr: String,
    pub exit_code: i32,
    pub error: Option<String>,
}

impl CommandResult {
    /// An error message is present exactly when the run failed.
    pub open spec fn wf(&self) -> bool {
        self.error is None <==> self.success
    }

    /// The result built from the exit code and the already cleaned output.
    pub open spec fn describes(&self, code: Option<i32>, out: Seq<char>, err: Seq<char>) -> bool {
        &&& self.wf()
        &&& self.success == verdict(code, out, err)
        &&& self.stdout@ == out
        &&& self.stderr@ == err
        &&& self.exit_code == exit_code_of(code)
        &&& !self.success ==> self.error.unwrap()@ == failure_text(code, out, err)
    }
}

fn includes_any_of(hay: &Vec<char>, ms: &Vec<Vec<char>>, Ghost(list): Ghost<Seq<Seq<char>>>) -> (r: bool)
    requires
        ms@.len() == list.len(),
        forall|j: int| 0 <= j < list.len() ==> (#[trigger] ms@[j])@ == list[j],
    ensures
        r == includes_any(hay@, list),
{
    let mut k: usize = 0;
    while k < ms.len()
        invariant
            k <= ms@.len(),
            ms@.len() == list.len(),
            forall|j: int| 0 <= j < list.len() ==> (#[trigger] ms@[j])@ == list[j],
            forall|j: int| 0 <= j < k ==> !includes(hay@, #[trigger] list[j]),
        decreases ms@.len() - k,
    {
        if has_part(hay, &ms[k]) {
            assert(includes(hay@, list[k as int]));
            return true;
        }
        k += 1;
    }
    false
}

fn stdout_marker_list() -> (r: Vec<Vec<char>>)
    ensures
        r@.len() == stdout_markers().len(),
        forall|j: int| 0 <= j < r@.len() ==> (#[trigger] r@[j])@ == stdout_markers()[j],
{
    vec![
        chars_of("\u{2717} "),
        chars_of("Authentication failed"),
        chars_of("Wrong password"),
        chars_of("File corrupted"),
        chars_of("Failed to"),
        chars_of("Error:"),
    ]
}

fn stderr_marker_list() -> (r: Vec<Vec<char>>)
    ensures
        r@.len() == stderr_markers().len(),
        forall|j: int| 0 <= j < r@.len() ==> (#[trigger] r@[j])@ == stderr_markers()[j],
{
    vec![chars_of("error"), chars_of("failed")]
}

fn line_marker_list() -> (r: Vec<Vec<char>>)
    ensures
        r@.len() == line_markers().len(),
        forall|j: int| 0 <= j < r@.len() ==> (#[trigger] r@[j])@ == line_markers()[j],
{
    vec![chars_of("\u{2717} "), chars_of("Error"), chars_of("failed")]
}

proof fn lemma_join_push(ls: Seq<Seq<char>>, l: Seq<char>)
    ensures
        join_lines(ls.push(l)) == if ls.len() == 0 {
            l
        } else {
            join_lines(ls) + seq!['\n'] + l
        },
{
    assert(ls.push(l).drop_last() =~= ls);
    if ls.len() == 0 {
        assert(ls.push(l)[0] == l);
    }
}

/// The lines of `out` that hold a line marker, joined with `\n`.
pub fn error_lines_text(out: &Vec<char>) -> (r: Vec<char>)
    ensures
        r@ == join_lines(error_lines_from(out@, 0)),
{
    let markers = line_marker_list();
    let n = out.len();
    let ghost picked: Seq<Seq<char>> = seq![];
    let mut r: Vec<char> = Vec::new();
    let mut any = false;
    let mut i: usize = 0;
    while i < n
        invariant
            any == (picked.len() > 0),
            n == out@.len(),
            i <= n,
            markers@.len() == line_markers().len(),
            forall|j: int| 0 <= j < markers@.len() ==> (#[trigger] markers@[j])@ == line_markers()[j],
            picked + error_lines_from(out@, i as int) == error_lines_from(out@, 0),
            r@ == join_lines(picked),
        decreases n - i,
    {
        let mut e: usize = i;
        while e < n && out[e] != '\n'
            invariant
                n == out@.len(),
                i <= e <= n,
                line_end(out@, i as int) == line_end(out@, e as int),
            decreases n - e,
        {
            e += 1;
        }
        proof {
            lemma_line_end_bounds(out@, i as int);
        }
        assert(line_end(out@, e as int) == e);
        let stop: usize = if e < n && e > i && out[e - 1] == '\r' { e - 1 } else { e };
        let mut line: Vec<char> = Vec::new();
        let mut k: usize = i;
        while k < stop
            invariant
                i <= k <= stop,
                stop <= n,
                n == out@.len(),
                line@ == out@.subrange(i as int, k as int),
            decreases stop - k,
        {
            line.push(out[k]);
            assert(out@.subrange(i as int, k + 1) =~= out@.subrange(i as int, k as int).push(out@[k as int]));
            k += 1;
        }
        assert(line@ =~= line_at(out@, i as int));
        let ghost rest = error_lines_from(out@, e + 1);
        let next: usize = if e < n { e + 1 } else { e };
        assert(error_lines_from(out@, next as int) == rest);
        if includes_any_of(&line, &markers, Ghost(line_markers())) {
            proof {
                lemma_join_push(picked, line@);
                assert(picked.push(line@) + rest =~= picked + (seq![line@] + rest));
            }
            if any {
                r.push('\n');
            }
            append_chars(&mut r, &line);
            proof {
                picked = picked.push(line@);
            }
            any = true;
        }
        i = next;
    }
    assert(picked + error_lines_from(out@, i as int) =~= picked);
    r
}

/// Every result built from a run carries an error message exactly when the
/// run failed.
pub proof fn error_iff_failure(r: CommandResult, code: Option<i32>, out: Seq<char>, err: Seq<char>)
    requires
        r.describes(code, out, err),
    ensures
        r.error is None <==> r.success,
{
}

/// An exit code of 0 with no failure marker in either stream is a success,
/// with no error message.
pub proof fn clean_zero_exit_succeeds(r: CommandResult, out: Seq<char>, err: Seq<char>)
    requires
        r.describes(Some(0i32), out, err),
        !has_error_marker(out, err),
    ensures
        r.success,
        r.error is None,
{
}

/// A non-zero exit code with something on standard error is a failure whose
/// message is standard error, verbatim.
pub proof fn nonzero_exit_reports_stderr(r: CommandResult, n: i32, out: Seq<char>, err: Seq<char>)
    requires
        r.describes(Some(n), out, err),
        n != 0,
        err.len() > 0,
    ensures
        !r.success,
        r.error.unwrap()@ == err,
{
}

/// A non-zero exit code with no marker and nothing on standard error is a
/// failure reported by a generic message naming the exit code.
pub proof fn nonzero_exit_generic_message(r: CommandResult, n: i32, out: Seq<char>, err: Seq<char>)
    requires
        r.describes(Some(n), out, err),
        n != 0,
        err.len() == 0,
        !has_error_marker(out, err),
    ensures
        !r.success,
        r.error.unwrap()@ == "Command failed with exit code "@ + decimal(n as int),
{
}

/// `n` can stand inside one reported line: it is not empty, holds no line
/// break, does not end in `\r`, and holds a line marker.
pub open spec fn fits_one_line(n: Seq<char>) -> bool {
    &&& n.len() > 0
    &&& forall|j: int| 0 <= j < n.len() ==> #[trigger] n[j] != '\n'
    &&& n.last() != '\r'
    &&& includes_any(n, line_markers())
}

proof fn lemma_error_lines_hold(s: Seq<char>, n: Seq<char>, i: int, p: int)
    requires
        fits_one_line(n),
        0 <= i <= p,
        occurs_at(s, n, p),
    ensures
        exists|k: int|
            0 <= k < error_lines_from(s, i).len() && includes(
                #[trigger] error_lines_from(s, i)[k],
                n,
            ),
    decreases s.len() - i,
{
    lemma_line_end_bounds(s, i);
    let e = line_end(s, i);
    let rest = error_lines_from(s, e + 1);
    let line = line_at(s, i);
    let ls = error_lines_from(s, i);
    if p < e {
        if p + n.len() > e {
            assert(s.subrange(p, p + n.len())[e - p] == s[e]);
            assert(n[e - p] == '\n');
        }
        if e < s.len() && e > i && s[e - 1] == '\r' {
            if p + n.len() == e {
                assert(s.subrange(p, p + n.len())[n.len() - 1] == s[e - 1]);
            }
        }
        assert(line.subrange(p - i, p - i + n.len()) =~= n);
        assert(occurs_at(line, n, p - i));
        let k = choose|k: int| 0 <= k < line_markers().len() && includes(n, #[trigger] line_markers()[k]);
        lemma_includes_within(n, line_markers()[k], line, p - i);
        assert(includes_any(line, line_markers()));
        assert(ls == seq![line] + rest);
        assert(ls[0] == line);
    } else {
        if p == e {
            assert(s.subrange(p, p + n.len())[0] == s[e]);
            assert(n[0] == '\n');
        }
        lemma_error_lines_hold(s, n, e + 1, p);
        let k = choose|k: int| 0 <= k < rest.len() && includes(#[trigger] rest[k], n);
        if includes_any(line, line_markers()) {
            assert(ls == seq![line] + rest);
            assert(ls[k + 1] == rest[k]);
        } else {
            assert(ls[k] == rest[k]);
        }
    }
}

proof fn lemma_join_includes(ls: Seq<Seq<char>>, k: int)
    requires
        0 <= k < ls.len(),
    ensures
        includes(join_lines(ls), ls[k]),
    decreases ls.len(),
{
    let w = join_lines(ls);
    if ls.len() == 1 {
        lemma_includes_self(ls[0]);
    } else {
        let d = ls.drop_last();
        let head = join_lines(d);
        if k < ls.len() - 1 {
            lemma_join_includes(d, k);
            assert(w.subrange(0, head.len() as int) =~= head);
            lemma_includes_within(head, ls[k], w, 0);
        } else {
            lemma_includes_self(ls[k]);
            let at: int = head.len() as int + 1;
            assert(w.subrange(at, at + ls[k].len()) =~= ls[k]);
            lemma_includes_within(ls[k], ls[k], w, at);
        }
    }
}

/// A line of standard output that names a failure and holds a line marker is
/// reported: the run fails, and the message includes the line unless standard
/// error (which is then the message) is non-empty and lacks it.
pub proof fn marked_line_is_reported(
    r: CommandResult,
    code: Option<i32>,
    out: Seq<char>,
    err: Seq<char>,
    line: Seq<char>,
)
    requires
        r.describes(code, out, err),
        fits_one_line(line),
        includes_any(line, stdout_markers()),
        includes(out, line),
        err.len() == 0 || includes(err, line),
    ensures
        !r.success,
        includes(r.error.unwrap()@, line),
{
    let p = choose|p: int| occurs_at(out, line, p);
    let m = choose|m: int| 0 <= m < stdout_markers().len() && includes(line, #[trigger] stdout_markers()[m]);
    assert(out.subrange(p, p + line.len()) == line);
    lemma_includes_within(line, stdout_markers()[m], out, p);
    assert(has_error_marker(out, err));
    if err.len() == 0 {
        lemma_error_lines_hold(out, line, 0, p);
        let ls = error_lines_from(out, 0);
        let k = choose|k: int| 0 <= k < ls.len() && includes(#[trigger] ls[k], line);
        lemma_join_includes(ls, k);
        let q = choose|q: int| occurs_at(ls[k], line, q);
        let j = choose|j: int| occurs_at(join_lines(ls), ls[k], j);
        assert(join_lines(ls).subrange(j, j + ls[k].len()) == ls[k]);
        lemma_includes_within(ls[k], line, join_lines(ls), j);
    }
}

/// An exit code of 0 does not hide the line `✗ Wrong password` on standard
/// output: the run fails, and with standard error empty the message holds
/// that line.
pub proof fn wrong_password_fails(r: CommandResult, out: Seq<char>, err: Seq<char>)
    requires
        r.describes(Some(0i32), out, err),
        includes(out, "\u{2717} Wrong password"@),
        err.len() == 0 || includes(err, "\u{2717} Wrong password"@),
    ensures
        !r.success,
        includes(r.error.unwrap()@, "\u{2717} Wrong password"@),
{
    let w = "\u{2717} Wrong password"@;
    reveal_strlit("\u{2717} Wrong password");
    reveal_strlit("\u{2717} ");
    reveal_strlit("Wrong password");
    assert(w.subrange(0, 2) =~= "\u{2717} "@);
    assert(occurs_at(w, "\u{2717} "@, 0));
    assert(line_markers()[0] == "\u{2717} "@);
    assert(stdout_markers()[0] == "\u{2717} "@);
    marked_line_is_reported(r, Some(0i32), out, err, w);
}

/// Decides the verdict and the error message from the exit code and the
/// cleaned output. An exit code of 0 is not trusted alone: a failure marker
/// in the output turns the run into a failure.
pub fn reconcile(stdout: String, stderr: String, code: Option<i32>) -> (r: CommandResult)
    ensures
        r.describes(code, stdout@, stderr@),
{
    let out = chars_of(stdout.as_str());
    let err = chars_of(stderr.as_str());
    let out_marked = includes_any_of(&out, &stdout_marker_list(), Ghost(stdout_markers()));
    let err_marked = includes_any_of(&err, &stderr_marker_list(), Ghost(stderr_markers()));
    let marked = out_marked || err_marked;
    let exit_code: i32 = match code {
        Some(c) => c,
        None => -1,
    };
    let status_success = match code {
        Some(c) => c == 0,
        None => false,
    };
    let success = status_success && !marked;
    let error = if success {
        None
    } else if err.len() > 0 {
        Some(stderr.clone())
    } else if marked {
        Some(string_of(&error_lines_text(&out)))
    } else {
        let mut msg = chars_of("Command failed with exit code ");
        append_chars(&mut msg, &decimal_of(exit_code));
        Some(string_of(&msg))
    };
    CommandResult { success, stdout, stderr, exit_code, error }
}

/// Cleans both captured streams, then reconciles them with the exit code.
pub fn normalize_text(stdout: &str, stderr: &str, code: Option<i32>) -> (r: CommandResult)
    ensures
        r.describes(code, sanitized(stdout@), sanitized(stderr@)),
{
    reconcile(sanitize(stdout), sanitize(stderr), code)
}

/// The text that lossy UTF-8 decoding makes of some bytes.
pub uninterp spec fn utf8_lossy(b: Seq<u8>) -> Seq<char>;

/// Relies on `String::from_utf8_lossy`: invalid sequences become U+FFFD,
/// so the text depends on the bytes alone; no bytes give no text.
#[verifier::external_body]
fn decode_lossy(b: &[u8]) -> (r: String)
    ensures
        r@ == utf8_lossy(b@),
        b@.len() == 0 ==> r@.len() == 0,
{
    String::from_utf8_lossy(b).into_owned()
}

/// Builds the result of one run from its raw captured bytes and exit code
/// (`None` where the process was ended by a signal).
pub fn normalize_output(stdout: &[u8], stderr: &[u8], code: Option<i32>) -> (r: CommandResult)
    ensures
        r.describes(code, sanitized(utf8_lossy(stdout@)), sanitized(utf8_lossy(stderr@))),
{
    let out = decode_lossy(stdout);
    let err = decode_lossy(stderr);
    normalize_text(out.as_str(), err.as_str(), code)
}

} // verus!
