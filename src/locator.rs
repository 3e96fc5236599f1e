//! Finding the tool's executable: the packaged location first, then a fixed,
//! platform-specific list of development locations.
use vstd::prelude::*;
use crate::text::{
    append_chars, chars_of, includes, lemma_includes_self, lemma_includes_within, string_of,
};

verus! {

/// What differs between target platforms: the executable's suffix, the
/// path separator, the development fallback paths and the process-creation
/// flags passed when spawning.
pub struct PlatformProfile {
    pub exe_suffix: String,
    pub separator: char,
    pub fallback_paths: Vec<String>,
    pub creation_flags: u32,
}

/// Process-creation flag that keeps a console window from opening.
pub const CREATE_NO_WINDOW: u32 = 0x0800_0000;

/// The views of a list of strings.
pub open spec fn views(v: Seq<String>) -> Seq<Seq<char>> {
    v.map_values(|s: String| s@)
}

/// Development locations tried on Windows, in order.
pub open spec fn windows_fallbacks() -> Seq<Seq<char>> {
    seq![
        "D:\\code\\filevault\\build\\build\\Release\\bin\\release\\filevault.exe"@,
        "..\\..\\build\\build\\Release\\bin\\release\\filevault.exe"@,
        "bin\\filevault.exe"@,
    ]
}

/// Development locations tried on other targets, in order.
pub open spec fn unix_fallbacks() -> Seq<Seq<char>> {
    seq![
        "../../build/build/Release/bin/release/filevault"@,
        "../build/build/Release/bin/release/filevault"@,
        "bin/filevault"@,
    ]
}

/// `root` ready to take a path component: a separator is added unless it is
/// empty or already ends with one.
pub open spec fn dir_prefix(root: Seq<char>, sep: char) -> Seq<char> {
    if root.len() == 0 || root.last() == sep {
        root
    } else {
        root.push(sep)
    }
}

/// `<root>/bin/<binary name>`, with the profile's separator.
pub open spec fn primary_path(root: Seq<char>, sep: char, suffix: Seq<char>) -> Seq<char> {
    dir_prefix(root, sep) + "bin"@ + seq![sep] + "filevault"@ + suffix
}

impl PlatformProfile {
    /// The Windows target: `.exe` suffix, `\` separator, no console window.
    pub fn windows() -> (r: PlatformProfile)
        ensures
            r.exe_suffix@ == ".exe"@,
            r.separator == '\\',
            views(r.fallback_paths@) == windows_fallbacks(),
            r.creation_flags == CREATE_NO_WINDOW,
    {
        let fallback_paths = vec![
            "D:\\code\\filevault\\build\\build\\Release\\bin\\release\\filevault.exe".to_owned(),
            "..\\..\\build\\build\\Release\\bin\\release\\filevault.exe".to_owned(),
            "bin\\filevault.exe".to_owned(),
        ];
        assert(views(fallback_paths@) =~= windows_fallbacks());
        PlatformProfile {
            exe_suffix: ".exe".to_owned(),
            separator: '\\',
            fallback_paths,
            creation_flags: CREATE_NO_WINDOW,
        }
    }

    /// Every other target: no suffix, `/` separator, no special flags.
    pub fn unix() -> (r: PlatformProfile)
        ensures
            r.exe_suffix@ == Seq::<char>::empty(),
            r.separator == '/',
            views(r.fallback_paths@) == unix_fallbacks(),
            r.creation_flags == 0,
    {
        let fallback_paths = vec![
            "../../build/build/Release/bin/release/filevault".to_owned(),
            "../build/build/Release/bin/release/filevault".to_owned(),
            "bin/filevault".to_owned(),
        ];
        assert(views(fallback_paths@) =~= unix_fallbacks());
        let exe_suffix = String::new();
        PlatformProfile { exe_suffix, separator: '/', fallback_paths, creation_flags: 0 }
    }

    /// The executable's file name on this platform.
    pub fn binary_name(&self) -> (r: String)
        ensures
            r@ == "filevault"@ + self.exe_suffix@,
    {
        let mut v = chars_of("filevault");
        append_chars(&mut v, &chars_of(self.exe_suffix.as_str()));
        string_of(&v)
    }

    /// The packaged location: `<resource_root>/bin/<binary name>`.
    pub fn primary_candidate(&self, resource_root: &str) -> (r: String)
        ensures
            r@ == primary_path(resource_root@, self.separator, self.exe_suffix@),
    {
        let mut v = chars_of(resource_root);
        let n = v.len();
        if n > 0 && v[n - 1] != self.separator {
            v.push(self.separator);
        }
        assert(v@ =~= dir_prefix(resource_root@, self.separator));
        append_chars(&mut v, &chars_of("bin"));
        v.push(self.separator);
        append_chars(&mut v, &chars_of("filevault"));
        append_chars(&mut v, &chars_of(self.exe_suffix.as_str()));
        assert(v@ =~= primary_path(resource_root@, self.separator, self.exe_suffix@));
        string_of(&v)
    }

    /// Every location to try, in order: the packaged one, then the fallbacks.
    pub fn candidates(&self, resource_root: &str) -> (r: Vec<String>)
        ensures
            views(r@) == seq![primary_path(resource_root@, self.separator, self.exe_suffix@)]
                + views(self.fallback_paths@),
    {
        let mut r: Vec<String> = Vec::new();
        r.push(self.primary_candidate(resource_root));
        let mut k: usize = 0;
        while k < self.fallback_paths.len()
            invariant
                k <= self.fallback_paths@.len(),
                views(r@) == seq![primary_path(resource_root@, self.separator, self.exe_suffix@)]
                    + views(self.fallback_paths@).take(k as int),
            decreases self.fallback_paths@.len() - k,
        {
            let p = self.fallback_paths[k].clone();
            assert(p@ == views(self.fallback_paths@)[k as int]);
            let ghost before = r@;
            r.push(p);
            assert(views(r@) =~= views(before).push(p@));
            assert(views(self.fallback_paths@).take(k + 1) =~= views(self.fallback_paths@).take(
                k as int,
            ).push(p@));
            assert(views(r@) =~= seq![primary_path(resource_root@, self.separator, self.exe_suffix@)]
                + views(self.fallback_paths@).take(k + 1));
            k += 1;
        }
        assert(views(self.fallback_paths@).take(k as int) =~= views(self.fallback_paths@));
        r
    }
}

/// Why a run could not start.
pub enum BridgeError {
    /// No candidate location holds the executable; carries every location
    /// tried, the packaged one first.
    ExecutableNotFound { tried: Vec<String> },
    /// The operating system could not start the process; carries its reason.
    SpawnFailure { reason: String },
}

/// What Rust's `Debug` format writes for a string: the text between double
/// quotes, with `\`, `"` and control characters escaped.
pub uninterp spec fn debug_quoted(s: Seq<char>) -> Seq<char>;

/// Relies on `<str as Debug>::fmt`, reached through `format!("{:?}")`: the
/// escaped form depends on the characters alone.
#[verifier::external_body]
fn debug_string(s: &str) -> (r: String)
    ensures
        r@ == debug_quoted(s@),
{
    format!("{:?}", s)
}

/// Each path as `Debug` writes it.
pub open spec fn debug_all(ps: Seq<Seq<char>>) -> Seq<Seq<char>> {
    ps.map_values(|p: Seq<char>| debug_quoted(p))
}

/// Written-out paths separated by `, `.
pub open spec fn listed(ps: Seq<Seq<char>>) -> Seq<char>
    decreases ps.len(),
{
    if ps.len() == 0 {
        seq![]
    } else if ps.len() == 1 {
        ps[0]
    } else {
        listed(ps.drop_last()) + ", "@ + ps.last()
    }
}

/// The report of a failed search over paths already written out: the
/// packaged location, then the fallbacks between brackets.
pub open spec fn not_found_layout(ws: Seq<Seq<char>>) -> Seq<char> {
    if ws.len() == 0 {
        "FileVault executable not found"@
    } else {
        "FileVault executable not found at "@ + ws[0] + ". Tried paths: ["@ + listed(ws.drop_first())
            + "]"@
    }
}

/// The report of a failed search, each path written as `Debug` writes it.
pub open spec fn not_found_text(tried: Seq<Seq<char>>) -> Seq<char> {
    not_found_layout(debug_all(tried))
}

/// Lays out the report of a failed search from paths already written out.
pub fn not_found_message(written: &Vec<String>) -> (r: String)
    ensures
        r@ == not_found_layout(views(written@)),
{
    let ghost ws = views(written@);
    if written.len() == 0 {
        return "FileVault executable not found".to_owned();
    }
    let mut v = chars_of("FileVault executable not found at ");
    append_chars(&mut v, &chars_of(written[0].as_str()));
    append_chars(&mut v, &chars_of(". Tried paths: ["));
    let ghost head = v@;
    assert(ws.subrange(1, 1) =~= Seq::<Seq<char>>::empty());
    let mut k: usize = 1;
    while k < written.len()
        invariant
            1 <= k <= written@.len(),
            ws == views(written@),
            v@ == head + listed(ws.subrange(1, k as int)),
        decreases written@.len() - k,
    {
        let ghost xs = ws.subrange(1, k as int);
        assert(ws.subrange(1, k + 1) =~= xs.push(ws[k as int]));
        assert(xs.push(ws[k as int]).drop_last() =~= xs);
        if k > 1 {
            append_chars(&mut v, &chars_of(", "));
        }
        append_chars(&mut v, &chars_of(written[k].as_str()));
        proof {
            if k == 1 {
                assert(xs.push(ws[k as int])[0] == ws[k as int]);
            }
            assert(v@ =~= head + listed(ws.subrange(1, k + 1)));
        }
        k += 1;
    }
    append_chars(&mut v, &chars_of("]"));
    assert(ws.subrange(1, k as int) =~= ws.drop_first());
    assert(v@ =~= not_found_layout(ws));
    string_of(&v)
}

impl BridgeError {
    /// The text shown to the caller.
    pub open spec fn text(&self) -> Seq<char> {
        match self {
            BridgeError::ExecutableNotFound { tried } => not_found_text(views(tried@)),
            BridgeError::SpawnFailure { reason } => "Failed to execute command: "@ + reason@,
        }
    }

    /// The text shown to the caller.
    pub fn message(&self) -> (r: String)
        ensures
            r@ == self.text(),
    {
        match self {
            BridgeError::ExecutableNotFound { tried } => {
                let ghost vs = views(tried@);
                let mut written: Vec<String> = Vec::new();
                let mut k: usize = 0;
                while k < tried.len()
                    invariant
                        k <= tried@.len(),
                        vs == views(tried@),
                        views(written@) == debug_all(vs.take(k as int)),
                    decreases tried@.len() - k,
                {
                    let w = debug_string(tried[k].as_str());
                    let ghost before = written@;
                    written.push(w);
                    assert(views(written@) =~= views(before).push(w@));
                    assert(debug_all(vs.take(k + 1)) =~= debug_all(vs.take(k as int)).push(
                        debug_quoted(vs[k as int]),
                    ));
                    k += 1;
                }
                assert(vs.take(k as int) =~= vs);
                not_found_message(&written)
            },
            BridgeError::SpawnFailure { reason } => {
                let mut v = chars_of("Failed to execute command: ");
                append_chars(&mut v, &chars_of(reason.as_str()));
                string_of(&v)
            },
        }
    }
}


/// `i` is the first position of `found` that holds `true`.
pub open spec fn picks(found: Seq<bool>, i: int) -> bool {
    0 <= i < found.len() && found[i] && forall|j: int| 0 <= j < i ==> !found[j]
}

/// Picks the first candidate found to exist (`found[i]` tells whether
/// `candidates[i]` exists), or reports every candidate when none does.
pub fn locate(candidates: Vec<String>, found: &Vec<bool>) -> (r: Result<String, BridgeError>)
    requires
        found@.len() == candidates@.len(),
    ensures
        match r {
            Ok(p) => exists|i: int| picks(found@, i) && p@ == candidates@[i]@,
            Err(e) => (forall|i: int| 0 <= i < found@.len() ==> !found@[i])
                && e == (BridgeError::ExecutableNotFound { tried: candidates }),
        },
{
    let mut i: usize = 0;
    while i < found.len()
        invariant
            i <= found@.len(),
            found@.len() == candidates@.len(),
            forall|j: int| 0 <= j < i ==> !found@[j],
        decreases found@.len() - i,
    {
        if found[i] {
            let p = candidates[i].clone();
            assert(picks(found@, i as int));
            return Ok(p);
        }
        i += 1;
    }
    Err(BridgeError::ExecutableNotFound { tried: candidates })
}

proof fn lemma_listed_includes(ps: Seq<Seq<char>>)
    ensures
        forall|i: int| 0 <= i < ps.len() ==> includes(listed(ps), #[trigger] ps[i]),
    decreases ps.len(),
{
    if ps.len() == 1 {
        lemma_includes_self(ps[0]);
    } else if ps.len() > 1 {
        let d = ps.drop_last();
        let w = listed(ps);
        lemma_listed_includes(d);
        assert(w == listed(d) + ", "@ + ps.last());
        assert forall|i: int| 0 <= i < ps.len() implies includes(w, #[trigger] ps[i]) by {
            if i < ps.len() - 1 {
                assert(d[i] == ps[i]);
                assert(w.subrange(0, listed(d).len() as int) =~= listed(d));
                lemma_includes_within(listed(d), ps[i], w, 0);
            } else {
                lemma_includes_self(ps.last());
                let at: int = (listed(d).len() + ", "@.len()) as int;
                assert(w.subrange(at, at + ps.last().len() as int) =~= ps.last());
                lemma_includes_within(ps.last(), ps[i], w, at);
            }
        }
    }
}

proof fn lemma_layout_names(ws: Seq<Seq<char>>, i: int)
    requires
        0 <= i < ws.len(),
    ensures
        includes(not_found_layout(ws), ws[i]),
{
    let w = not_found_layout(ws);
    let rest = ws.drop_first();
    let a = "FileVault executable not found at "@ + ws[0];
    let b = a + ". Tried paths: ["@;
    let l = listed(rest);
    assert(w == b + l + "]"@);
    if i == 0 {
        let at: int = a.len() - ws[0].len();
        lemma_includes_self(ws[0]);
        assert(w.subrange(at, at + ws[0].len()) =~= ws[0]);
        lemma_includes_within(ws[0], ws[0], w, at);
    } else {
        lemma_listed_includes(rest);
        assert(rest[i - 1] == ws[i]);
        let at: int = b.len() as int;
        assert(w.subrange(at, at + l.len()) =~= l);
        lemma_includes_within(l, ws[i], w, at);
    }
}

/// A failed search reports every location that it tried, each written as
/// `Debug` writes a string.
pub proof fn not_found_names_every_path(tried: Vec<String>)
    ensures
        forall|i: int|
            0 <= i < tried@.len() ==> includes(
                (BridgeError::ExecutableNotFound { tried }).text(),
                debug_quoted(#[trigger] tried@[i]@),
            ),
{
    let ws = debug_all(views(tried@));
    assert forall|i: int| 0 <= i < tried@.len() implies includes(
        not_found_layout(ws),
        debug_quoted(#[trigger] tried@[i]@),
    ) by {
        assert(ws[i] == debug_quoted(tried@[i]@));
        lemma_layout_names(ws, i);
    }
}

} // verus!
