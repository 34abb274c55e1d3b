//! Planning of typesetting-tool invocations.
//!
//! The library decides which commands may run and assembles each
//! invocation — program, arguments, working directory — as plain
//! values; the embedding application executes them.  Only a fixed
//! set of engines is ever allowed, matched against the file stem of
//! the given program path, case-folded.

use vstd::prelude::*;
use vstd::string::StringSliceAdditionalSpecFns;
use crate::bytes::to_lower;

verus! {

/// Path separators recognised in program and file paths: slash and
/// backslash, on every platform alike.
pub open spec fn is_sep(b: u8) -> bool {
    b == 47 || b == 92
}

/// Index just past the last separator of `s`, or zero.
pub open spec fn name_start(s: Seq<u8>) -> int
    decreases s.len(),
{
    if s.len() == 0 {
        0
    } else if is_sep(s.last()) {
        s.len() as int
    } else {
        name_start(s.drop_last())
    }
}

/// Index of the last dot strictly after `ns`, or `-1`: a dot that
/// begins the file name does not separate an extension.
pub open spec fn last_dot(s: Seq<u8>, ns: int) -> int
    decreases s.len(),
{
    if s.len() == 0 || s.len() <= ns + 1 {
        -1
    } else if s[s.len() - 1] == 46 {
        s.len() - 1
    } else {
        last_dot(s.drop_last(), ns)
    }
}

/// The file stem of a path: its file name without the extension.
pub open spec fn stem_seq(s: Seq<u8>) -> Seq<u8> {
    let ns = name_start(s);
    let d = last_dot(s, ns);
    if d == -1 {
        s.subrange(ns, s.len() as int)
    } else {
        s.subrange(ns, d)
    }
}

/// The case-folded form of a byte string.
pub open spec fn lower_seq(s: Seq<u8>) -> Seq<u8> {
    s.map_values(|b: u8| to_lower(b))
}

/// `pdflatex`
pub open spec fn e_pdflatex() -> Seq<u8> {
    seq![112u8, 100, 102, 108, 97, 116, 101, 120]
}

/// `xelatex`
pub open spec fn e_xelatex() -> Seq<u8> {
    seq![120u8, 101, 108, 97, 116, 101, 120]
}

/// `lualatex`
pub open spec fn e_lualatex() -> Seq<u8> {
    seq![108u8, 117, 97, 108, 97, 116, 101, 120]
}

/// `latexmk`
pub open spec fn e_latexmk() -> Seq<u8> {
    seq![108u8, 97, 116, 101, 120, 109, 107]
}

/// `synctex`
pub open spec fn e_synctex() -> Seq<u8> {
    seq![115u8, 121, 110, 99, 116, 101, 120]
}

/// `texcount`
pub open spec fn e_texcount() -> Seq<u8> {
    seq![116u8, 101, 120, 99, 111, 117, 110, 116]
}

/// The fixed allow-list of engine names.
pub open spec fn allowed_name(s: Seq<u8>) -> bool {
    s == e_pdflatex() || s == e_xelatex() || s == e_lualatex() || s == e_latexmk() || s
        == e_synctex() || s == e_texcount()
}

/// A program path names an allowed engine: the case-folded stem of
/// its file name is on the allow-list.
pub open spec fn allowed_engine_path(s: Seq<u8>) -> bool {
    allowed_name(lower_seq(stem_seq(s)))
}

/// Finds where the file name of the path in `b` starts.
fn name_start_ex(b: &[u8]) -> (r: usize)
    ensures
        r as int == name_start(b@),
        r <= b@.len(),
{
    let mut j = b.len();
    proof {
        assert(b@.take(b@.len() as int) =~= b@);
    }
    while j > 0 && b[j - 1] != 47 && b[j - 1] != 92
        invariant
            j <= b@.len(),
            name_start(b@) == name_start(b@.take(j as int)),
        decreases j,
    {
        proof {
            assert(b@.take(j as int).drop_last() =~= b@.take(j as int - 1));
        }
        j = j - 1;
    }
    proof {
        if j > 0 {
            assert(b@.take(j as int).last() == b@[j as int - 1]);
        }
    }
    j
}

/// Finds the last dot strictly after `ns`, if any.
fn last_dot_ex(b: &[u8], ns: usize) -> (r: Option<usize>)
    requires
        ns <= b@.len(),
    ensures
        match r {
            Option::Some(d) => ns < d < b@.len() && last_dot(b@, ns as int) == d as int,
            Option::None => last_dot(b@, ns as int) == -1,
        },
{
    let mut j = b.len();
    proof {
        assert(b@.take(b@.len() as int) =~= b@);
    }
    while j > 0 && j - 1 > ns
        invariant
            ns <= b@.len(),
            j <= b@.len(),
            last_dot(b@, ns as int) == last_dot(b@.take(j as int), ns as int),
        decreases j,
    {
        if b[j - 1] == 46 {
            proof {
                assert(b@.take(j as int)[j - 1] == b@[j as int - 1]);
            }
            return Option::Some(j - 1);
        }
        proof {
            assert(b@.take(j as int).drop_last() =~= b@.take(j as int - 1));
            assert(b@.take(j as int)[j - 1] == b@[j as int - 1]);
        }
        j = j - 1;
    }
    Option::None
}

/// Compares the case-folded window `[lo, hi)` of `b` with `lit`.
fn window_lower_is(b: &[u8], lo: usize, hi: usize, lit: &Vec<u8>) -> (r: bool)
    requires
        lo <= hi <= b@.len(),
    ensures
        r == (lower_seq(b@.subrange(lo as int, hi as int)) == lit@),
{
    proof {
        assert(lower_seq(b@.subrange(lo as int, hi as int)).len() == hi - lo);
    }
    if hi - lo != lit.len() {
        return false;
    }
    let mut k: usize = 0;
    while k < lit.len()
        invariant
            k <= lit@.len() == hi - lo,
            lo <= hi <= b@.len(),
            forall|x: int| 0 <= x < k ==> lower_seq(b@.subrange(lo as int, hi as int))[x]
                == lit@[x],
        decreases lit@.len() - k,
    {
        let c = crate::bytes::lower_byte(b[lo + k]);
        proof {
            assert(b@.subrange(lo as int, hi as int)[k as int] == b@[lo + k]);
        }
        if c != lit[k] {
            return false;
        }
        k = k + 1;
    }
    proof {
        assert(lower_seq(b@.subrange(lo as int, hi as int)) =~= lit@);
    }
    true
}

fn e_pdflatex_vec() -> (v: Vec<u8>)
    ensures
        v@ == e_pdflatex(),
{
    let mut v: Vec<u8> = Vec::new();
    v.push(112);
    v.push(100);
    v.push(102);
    v.push(108);
    v.push(97);
    v.push(116);
    v.push(101);
    v.push(120);
    proof {
        assert(v@ =~= e_pdflatex());
    }
    v
}

fn e_xelatex_vec() -> (v: Vec<u8>)
    ensures
        v@ == e_xelatex(),
{
    let mut v: Vec<u8> = Vec::new();
    v.push(120);
    v.push(101);
    v.push(108);
    v.push(97);
    v.push(116);
    v.push(101);
    v.push(120);
    proof {
        assert(v@ =~= e_xelatex());
    }
    v
}

fn e_lualatex_vec() -> (v: Vec<u8>)
    ensures
        v@ == e_lualatex(),
{
    let mut v: Vec<u8> = Vec::new();
    v.push(108);
    v.push(117);
    v.push(97);
    v.push(108);
    v.push(97);
    v.push(116);
    v.push(101);
    v.push(120);
    proof {
        assert(v@ =~= e_lualatex());
    }
    v
}

fn e_latexmk_vec() -> (v: Vec<u8>)
    ensures
        v@ == e_latexmk(),
{
    let mut v: Vec<u8> = Vec::new();
    v.push(108);
    v.push(97);
    v.push(116);
    v.push(101);
    v.push(120);
    v.push(109);
    v.push(107);
    proof {
        assert(v@ =~= e_latexmk());
    }
    v
}

fn e_synctex_vec() -> (v: Vec<u8>)
    ensures
        v@ == e_synctex(),
{
    let mut v: Vec<u8> = Vec::new();
    v.push(115);
    v.push(121);
    v.push(110);
    v.push(99);
    v.push(116);
    v.push(101);
    v.push(120);
    proof {
        assert(v@ =~= e_synctex());
    }
    v
}

fn e_texcount_vec() -> (v: Vec<u8>)
    ensures
        v@ == e_texcount(),
{
    let mut v: Vec<u8> = Vec::new();
    v.push(116);
    v.push(101);
    v.push(120);
    v.push(99);
    v.push(111);
    v.push(117);
    v.push(110);
    v.push(116);
    proof {
        assert(v@ =~= e_texcount());
    }
    v
}

/// Whether a program path names one of the allowed typesetting
/// engines, judged by the case-folded stem of its file name.
pub fn is_allowed_engine(engine: &str) -> (r: bool)
    ensures
        r == allowed_engine_path(engine.spec_bytes()),
{
    let b = engine.as_bytes();
    let ns = name_start_ex(b);
    let hi = match last_dot_ex(b, ns) {
        Option::Some(d) => d,
        Option::None => b.len(),
    };
    assert(b@.subrange(ns as int, hi as int) == stem_seq(b@));
    window_lower_is(b, ns, hi, &e_pdflatex_vec()) || window_lower_is(b, ns, hi, &e_xelatex_vec())
        || window_lower_is(b, ns, hi, &e_lualatex_vec()) || window_lower_is(
        b,
        ns,
        hi,
        &e_latexmk_vec(),
    ) || window_lower_is(b, ns, hi, &e_synctex_vec()) || window_lower_is(
        b,
        ns,
        hi,
        &e_texcount_vec(),
    )
}

/// `h` holds `n` as a contiguous run of bytes.
pub open spec fn contains_seq(h: Seq<u8>, n: Seq<u8>) -> bool {
    exists|i: int|
        0 <= i <= h.len() - n.len() && #[trigger] h.subrange(i, i + n.len() as int) == n
}

/// Whether the window of `h` at `i` spells `n`.
#[verifier::loop_isolation(false)]
fn eq_at(h: &[u8], i: usize, n: &[u8]) -> (r: bool)
    requires
        i + n@.len() <= h@.len(),
    ensures
        r == (h@.subrange(i as int, i as int + n@.len() as int) == n@),
{
    let hl = h.len();
    assert(hl == h@.len());
    let mut k: usize = 0;
    while k < n.len()
        invariant
            k <= n@.len(),
            i + n@.len() <= h@.len(),
            forall|x: int| 0 <= x < k ==> h@.subrange(i as int, i as int + n@.len() as int)[x]
                == n@[x],
        decreases n@.len() - k,
    {
        proof {
            assert(h@.subrange(i as int, i as int + n@.len() as int)[k as int] == h@[i + k]);
        }
        if h[i + k] != n[k] {
            return false;
        }
        k = k + 1;
    }
    proof {
        assert(h@.subrange(i as int, i as int + n@.len() as int) =~= n@);
    }
    true
}

/// Substring search.
#[verifier::loop_isolation(false)]
fn contains_bytes(h: &[u8], n: &[u8]) -> (r: bool)
    ensures
        r == contains_seq(h@, n@),
{
    let hl = h.len();
    let nl = n.len();
    assert(hl == h@.len() && nl == n@.len());
    if nl > hl {
        proof {
            assert(!contains_seq(h@, n@));
        }
        return false;
    }
    if nl == 0 {
        proof {
            assert(h@.subrange(0, 0 + n@.len() as int) =~= n@);
            assert(contains_seq(h@, n@));
        }
        return true;
    }
    let mut i: usize = 0;
    while i <= hl - nl
        invariant
            n@.len() <= h@.len(),
            i <= h@.len() - n@.len() + 1,
            forall|x: int| 0 <= x < i ==> #[trigger] h@.subrange(x, x + n@.len() as int) != n@,
        decreases h@.len() - n@.len() + 1 - i,
    {
        if eq_at(h, i, n) {
            return true;
        }
        i = i + 1;
    }
    proof {
        assert(!contains_seq(h@, n@));
    }
    false
}

/// The search path grown by each candidate directory it does not
/// already hold, joined by the platform's delimiter, in order.
pub open spec fn augment_spec(cur: Seq<u8>, delim: u8, extras: Seq<Seq<u8>>, k: int) -> Seq<u8>
    decreases extras.len() - k,
{
    if k >= extras.len() || k < 0 {
        cur
    } else {
        let cur2 = if contains_seq(cur, extras[k]) {
            cur
        } else {
            cur + seq![delim] + extras[k]
        };
        augment_spec(cur2, delim, extras, k + 1)
    }
}

/// Appends to a search path every candidate directory it does not
/// already mention.  The platform hands in its own path-list
/// delimiter and its usual tool directories.
#[verifier::loop_isolation(false)]
pub fn get_augmented_path(current_path: &[u8], delimiter: u8, extra_paths: &Vec<Vec<u8>>) -> (r:
    Vec<u8>)
    ensures
        r@ == augment_spec(
            current_path@,
            delimiter,
            extra_paths@.map_values(|v: Vec<u8>| v@),
            0,
        ),
{
    let ghost em = extra_paths@.map_values(|v: Vec<u8>| v@);
    let mut cur: Vec<u8> = Vec::new();
    crate::bytes::push_bytes(&mut cur, current_path);
    proof {
        assert(cur@ =~= current_path@);
    }
    let mut k: usize = 0;
    let nextras = extra_paths.len();
    while k < nextras
        invariant
            k <= nextras == extra_paths@.len(),
            em == extra_paths@.map_values(|v: Vec<u8>| v@),
            augment_spec(current_path@, delimiter, em, 0) == augment_spec(
                cur@,
                delimiter,
                em,
                k as int,
            ),
        decreases nextras - k,
    {
        proof {
            assert(em[k as int] == extra_paths@[k as int]@);
        }
        if !contains_bytes(cur.as_slice(), extra_paths[k].as_slice()) {
            let ghost before = cur@;
            cur.push(delimiter);
            crate::bytes::push_bytes(&mut cur, extra_paths[k].as_slice());
            proof {
                assert(cur@ =~= before + seq![delimiter] + em[k as int]);
            }
        }
        k = k + 1;
    }
    cur
}

/// One planned tool invocation, for the embedding application to run:
/// the program, its arguments in order, and the working directory, if
/// one was requested.
pub struct CommandPlan {
    pub program: String,
    pub args: Vec<String>,
    pub cwd: Option<String>,
}

/// Plans a run of an arbitrary program, which must be an allowed
/// engine; anything else is refused.
pub fn plan_command(command: &str, args: Vec<String>, cwd: Option<String>) -> (r: Result<
    CommandPlan,
    String,
>)
    ensures
        r is Ok <==> allowed_engine_path(command.spec_bytes()),
        r matches Ok(p) ==> p.program@ == command@ && p.args == args && p.cwd == cwd,
{
    if !is_allowed_engine(command) {
        return Result::Err(command.to_owned());
    }
    Result::Ok(CommandPlan { program: command.to_owned(), args, cwd })
}

/// Plans a forward/inverse-search run: the `synctex` tool in the
/// given working directory, or in the caller's own if none is named.
pub fn run_synctex(args: Vec<String>, cwd_path: &str) -> (r: CommandPlan)
    ensures
        r.program@ == "synctex"@,
        r.args == args,
        cwd_path@.len() == 0 ==> r.cwd is None,
        cwd_path@.len() > 0 ==> (r.cwd matches Some(c) && c@ == cwd_path@),
{
    let cwd: Option<String> = if cwd_path.is_empty() {
        Option::None
    } else {
        Option::Some(cwd_path.to_owned())
    };
    CommandPlan { program: "synctex".to_owned(), args, cwd }
}

/// Plans a word-count run: the `texcount` tool in the given working
/// directory, or in the caller's own if none is named.
pub fn run_texcount(args: Vec<String>, cwd_path: &str) -> (r: CommandPlan)
    ensures
        r.program@ == "texcount"@,
        r.args == args,
        cwd_path@.len() == 0 ==> r.cwd is None,
        cwd_path@.len() > 0 ==> (r.cwd matches Some(c) && c@ == cwd_path@),
{
    let cwd: Option<String> = if cwd_path.is_empty() {
        Option::None
    } else {
        Option::Some(cwd_path.to_owned())
    };
    CommandPlan { program: "texcount".to_owned(), args, cwd }
}

/// One planned compilation: the engine, the document's directory and
/// bare file name, and the extra arguments, in order, with the file
/// name to be passed last.
pub struct CompilePlan {
    pub engine: String,
    pub dir: Vec<u8>,
    pub file_name: Vec<u8>,
    pub args: Vec<String>,
}

/// Plans a compilation of the document at `file_path` with `engine`.
///
/// An engine off the allow-list is refused.  The document's directory
/// is everything before its file name, a lone dot when there is none;
/// whether the file exists is for the embedding application to check
/// before it runs the plan.
pub fn plan_compile(file_path: &str, engine: &str, args: Vec<String>) -> (r: Result<
    CompilePlan,
    String,
>)
    ensures
        r is Ok <==> allowed_engine_path(engine.spec_bytes()),
        r matches Ok(p) ==> {
            let b = file_path.spec_bytes();
            let ns = name_start(b);
            &&& p.engine@ == engine@
            &&& p.args == args
            &&& p.file_name@ == b.subrange(ns, b.len() as int)
            &&& (ns == 0 ==> p.dir@ == seq![46u8])
            &&& (ns > 0 ==> p.dir@ == b.subrange(0, ns - 1))
        },
{
    if !is_allowed_engine(engine) {
        return Result::Err(engine.to_owned());
    }
    let b = file_path.as_bytes();
    let ns = name_start_ex(b);
    let file_name = crate::json::copy_window(b, ns, b.len());
    let dir: Vec<u8> = if ns == 0 {
        let mut d: Vec<u8> = Vec::new();
        d.push(46);
        proof {
            assert(d@ =~= seq![46u8]);
        }
        d
    } else {
        crate::json::copy_window(b, 0, ns - 1)
    };
    Result::Ok(CompilePlan { engine: engine.to_owned(), dir, file_name, args })
}

} // verus!
