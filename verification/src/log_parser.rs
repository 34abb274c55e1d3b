//! The typesetting log grammar: errors and warnings drawn out of a
//! compiler's log text.
//!
//! A log is read line by line, each line trimmed.  A line opening
//! with `!` starts an error, whose source line number is sought on
//! the following few lines; a `LaTeX Warning:` line carries its own
//! line number at its end; a package or class warning may spill onto
//! following lines until one ends `on input line N.`.  Whitespace and
//! case are matched on ASCII.

use vstd::prelude::*;
use vstd::string::StringSliceAdditionalSpecFns;
use crate::bytes::{is_digit, win_val};
use crate::json::{digit_end, is_json_ws, skip_ws};
use crate::codec::{find_nl, ws_back};

verus! {

/// One finding of the log parser.  `kind` is `error` or `warning`;
/// `line` is the source line the finding points at, zero when none
/// was found; `file` is reserved and never filled in.
pub struct LogEntry {
    pub kind: String,
    pub message: Vec<u8>,
    pub line: i32,
    pub file: Option<String>,
}

/// Ghost counterpart of [`LogEntry`].
pub ghost struct LogEntryModel {
    pub kind: Seq<char>,
    pub message: Seq<u8>,
    pub line: int,
    pub file: Option<Seq<char>>,
}

impl View for LogEntry {
    type V = LogEntryModel;

    open spec fn view(&self) -> LogEntryModel {
        LogEntryModel {
            kind: self.kind@,
            message: self.message@,
            line: self.line as int,
            file: match self.file {
                Option::None => Option::None,
                Option::Some(ref f) => Option::Some(f@),
            },
        }
    }
}

/// The window `[lo, hi)` of `s` with its surrounding whitespace
/// removed.
pub open spec fn trim_win(s: Seq<u8>, lo: int, hi: int) -> Seq<u8> {
    let tlo = skip_ws(s, lo, hi);
    let thi = ws_back(s, tlo, hi);
    s.subrange(tlo, thi)
}

/// The log's lines from position `i` on: split at line feeds, each
/// line trimmed.
pub open spec fn lines_from(s: Seq<u8>, i: int) -> Seq<Seq<u8>>
    decreases s.len() - i,
{
    match find_nl(s, i) {
        Option::None => seq![trim_win(s, i, s.len() as int)],
        Option::Some(nl) => if i <= nl < s.len() {
            seq![trim_win(s, i, nl)] + lines_from(s, nl + 1)
        } else {
            seq![trim_win(s, i, s.len() as int)]
        },
    }
}

/// The whole log text split into trimmed lines.
pub open spec fn lines_spec(s: Seq<u8>) -> Seq<Seq<u8>> {
    lines_from(s, 0)
}

/// Largest start of a digit run ending just before `j`.
pub open spec fn digit_start(t: Seq<u8>, j: int) -> int
    decreases j,
{
    if j > 0 && 0 < j <= t.len() && is_digit(t[j - 1]) {
        digit_start(t, j - 1)
    } else {
        j
    }
}

/// A number too large for the entry's line field falls back to zero,
/// as an unparsable number does.
pub open spec fn line_no_value(v: nat) -> int {
    if v <= 0x7fff_ffff {
        v as int
    } else {
        0
    }
}

/// `! <message>`: a line opening an error report.
pub open spec fn match_error(t: Seq<u8>) -> Option<Seq<u8>> {
    if t.len() >= 2 && t[0] == 33 && is_json_ws(t[1]) {
        Option::Some(t.subrange(skip_ws(t, 1, t.len() as int), t.len() as int))
    } else {
        Option::None
    }
}

/// `l.<digits>`: the source-line marker below an error report.
pub open spec fn match_line_no(t: Seq<u8>) -> Option<int> {
    if t.len() >= 3 && t[0] == 108 && t[1] == 46 && is_digit(t[2]) {
        Option::Some(line_no_value(win_val(t, 2, digit_end(t, 2, t.len() as int))))
    } else {
        Option::None
    }
}

/// `LaTeX Warning:`
pub open spec fn warning_prefix() -> Seq<u8> {
    seq![76u8, 97, 84, 101, 88, 32, 87, 97, 114, 110, 105, 110, 103, 58]
}

/// `on input line`
pub open spec fn on_input_line_lit() -> Seq<u8> {
    seq![111u8, 110, 32, 105, 110, 112, 117, 116, 32, 108, 105, 110, 101]
}

/// The tail `<ws>on input line<ws+><digits>.` at the very end of a
/// line: the index of the whitespace byte that begins the tail, and
/// the number.
pub open spec fn warning_tail(t: Seq<u8>) -> Option<(int, int)> {
    let n = t.len() as int;
    if n >= 1 && t[n - 1] == 46 {
        let d0 = digit_start(t, n - 1);
        let w0 = ws_start(t, d0);
        if d0 < n - 1 && w0 < d0 && w0 - 13 >= 1 && t.subrange(w0 - 13, w0) == on_input_line_lit()
            && is_json_ws(t[w0 - 14]) {
            Option::Some((w0 - 14, line_no_value(win_val(t, d0, n - 1))))
        } else {
            Option::None
        }
    } else {
        Option::None
    }
}

/// Largest start of a whitespace run ending just before `j`.
pub open spec fn ws_start(t: Seq<u8>, j: int) -> int
    decreases j,
{
    if j > 0 && 0 < j <= t.len() && is_json_ws(t[j - 1]) {
        ws_start(t, j - 1)
    } else {
        j
    }
}

/// `LaTeX Warning: <message> on input line <n>.`
pub open spec fn match_warning(t: Seq<u8>) -> Option<(Seq<u8>, int)> {
    let n = t.len() as int;
    if n > 15 && t.subrange(0, 14) == warning_prefix() && is_json_ws(t[14]) {
        match warning_tail(t) {
            Option::Some((sep, v)) => if sep >= 15 {
                let wsend = skip_ws(t, 14, n);
                let msg = if wsend <= sep {
                    t.subrange(wsend, sep)
                } else {
                    Seq::<u8>::empty()
                };
                Option::Some((msg, v))
            } else {
                Option::None
            },
            Option::None => Option::None,
        }
    } else {
        Option::None
    }
}

/// A word byte: letters, digits, underscore.
pub open spec fn is_word_byte(b: u8) -> bool {
    is_digit(b) || (65 <= b && b <= 90) || (97 <= b && b <= 122) || b == 95
}

/// First index in `[i, end)` past a run of word bytes.
pub open spec fn word_end(t: Seq<u8>, i: int, end: int) -> int
    decreases end - i,
{
    if i < end && 0 <= i < t.len() && is_word_byte(t[i]) {
        word_end(t, i + 1, end)
    } else {
        i
    }
}

/// `Package`
pub open spec fn package_lit() -> Seq<u8> {
    seq![80u8, 97, 99, 107, 97, 103, 101]
}

/// `Class`
pub open spec fn class_lit() -> Seq<u8> {
    seq![67u8, 108, 97, 115, 115]
}

/// `Warning:`
pub open spec fn warning_colon_lit() -> Seq<u8> {
    seq![87u8, 97, 114, 110, 105, 110, 103, 58]
}

/// `Package <name> Warning: <message>` or `Class <name> Warning:
/// <message>`: the package name and the message's first part.
pub open spec fn match_package(t: Seq<u8>) -> Option<(Seq<u8>, Seq<u8>)> {
    let n = t.len() as int;
    let plen: int = if n >= 7 && t.subrange(0, 7) == package_lit() {
        7
    } else if n >= 5 && t.subrange(0, 5) == class_lit() {
        5
    } else {
        -1
    };
    if plen == -1 {
        Option::None
    } else {
        let w1 = skip_ws(t, plen, n);
        let we = word_end(t, w1, n);
        let w2 = skip_ws(t, we, n);
        if w1 > plen && we > w1 && w2 > we && w2 + 8 <= n && t.subrange(w2, w2 + 8)
            == warning_colon_lit() {
            let w3 = skip_ws(t, w2 + 8, n);
            if w3 > w2 + 8 {
                Option::Some((t.subrange(w1, we), t.subrange(w3, n)))
            } else {
                Option::None
            }
        } else {
            Option::None
        }
    }
}

/// `on input line <n>.` at the end of a line, wherever it starts:
/// the number, with the literal spelt with single spaces.
pub open spec fn match_input_line_tail(t: Seq<u8>) -> Option<int> {
    let n = t.len() as int;
    if n >= 1 && t[n - 1] == 46 {
        let d0 = digit_start(t, n - 1);
        if d0 < n - 1 && d0 - 14 >= 0 && t.subrange(d0 - 14, d0) == on_input_line_lit() + seq![
            32u8,
        ] {
            Option::Some(line_no_value(win_val(t, d0, n - 1)))
        } else {
            Option::None
        }
    } else {
        Option::None
    }
}

/// The error's source line: the first line-number marker within the
/// lookahead window `[j, limit)`, or zero.
pub open spec fn error_line_no(lines: Seq<Seq<u8>>, j: int, limit: int) -> int
    decreases limit - j,
{
    if j >= limit || j < 0 || limit > lines.len() {
        0
    } else {
        match match_line_no(lines[j]) {
            Option::Some(v) => v,
            Option::None => error_line_no(lines, j + 1, limit),
        }
    }
}

/// The package warning's continuation: from line `j`, every further
/// line joins the message with a space, until one ends with the
/// input-line tail, which supplies the line number; the scan stops
/// there, or at the window's end with line number zero.
pub open spec fn package_scan(lines: Seq<Seq<u8>>, i: int, j: int, limit: int, acc: Seq<u8>) -> (
    Seq<u8>,
    int,
)
    decreases limit - j,
{
    if j >= limit || j < 0 || limit > lines.len() {
        (acc, 0)
    } else {
        let acc2 = if j > i {
            acc + seq![32u8] + lines[j]
        } else {
            acc
        };
        match match_input_line_tail(lines[j]) {
            Option::Some(v) => (acc2, v),
            Option::None => package_scan(lines, i, j + 1, limit, acc2),
        }
    }
}

/// `error`
pub open spec fn kind_error() -> Seq<char> {
    "error"@
}

/// `warning`
pub open spec fn kind_warning() -> Seq<char> {
    "warning"@
}

/// The smaller of two bounds.
pub open spec fn min_int(a: int, b: int) -> int {
    if a <= b {
        a
    } else {
        b
    }
}

/// A package warning's full message: the name, a colon and space,
/// then the gathered parts.
pub open spec fn package_message(pkg: Seq<u8>, parts: Seq<u8>) -> Seq<u8> {
    pkg + seq![58u8, 32] + parts
}

/// Every finding of the log from line `i` on, in order.
pub open spec fn log_entries(lines: Seq<Seq<u8>>, i: int) -> Seq<LogEntryModel>
    decreases lines.len() - i,
{
    if i >= lines.len() || i < 0 {
        Seq::empty()
    } else {
        let t = lines[i];
        let rest = log_entries(lines, i + 1);
        match match_error(t) {
            Option::Some(msg) => seq![
                LogEntryModel {
                    kind: kind_error(),
                    message: msg,
                    line: error_line_no(lines, i + 1, min_int(i + 10, lines.len() as int)),
                    file: Option::None,
                },
            ] + rest,
            Option::None => match match_warning(t) {
                Option::Some((msg, v)) => seq![
                    LogEntryModel {
                        kind: kind_warning(),
                        message: msg,
                        line: v,
                        file: Option::None,
                    },
                ] + rest,
                Option::None => match match_package(t) {
                    Option::Some((pkg, first)) => {
                        let (parts, v) = package_scan(
                            lines,
                            i,
                            i,
                            min_int(i + 5, lines.len() as int),
                            first,
                        );
                        seq![
                            LogEntryModel {
                                kind: kind_warning(),
                                message: package_message(pkg, parts),
                                line: v,
                                file: Option::None,
                            },
                        ] + rest
                    },
                    Option::None => rest,
                },
            },
        }
    }
}

/// The whole log's findings.
pub open spec fn parse_log_spec(s: Seq<u8>) -> Seq<LogEntryModel> {
    log_entries(lines_spec(s), 0)
}

/// The view of a list of entries.
pub open spec fn entries_view(v: Seq<LogEntry>) -> Seq<LogEntryModel> {
    v.map_values(|e: LogEntry| e@)
}

/// Splits the log into trimmed lines.
#[verifier::loop_isolation(false)]
fn split_lines(s: &[u8]) -> (r: Vec<Vec<u8>>)
    ensures
        r@.map_values(|v: Vec<u8>| v@) == lines_spec(s@),
{
    let mut out: Vec<Vec<u8>> = Vec::new();
    let mut cur: usize = 0;
    let end = s.len();
    loop
        invariant
            cur <= end == s@.len(),
            lines_spec(s@) == out@.map_values(|v: Vec<u8>| v@) + lines_from(s@, cur as int),
        decreases end - cur,
    {
        let (hi, next, last): (usize, usize, bool) = match find_nl_line(s, cur) {
            Option::Some(nl) => (nl, nl + 1, false),
            Option::None => (end, end, true),
        };
        let tlo = crate::json::ws_end(s, cur, hi);
        let thi = ws_back_line(s, tlo, hi);
        let line = crate::json::copy_window(s, tlo, thi);
        out.push(line);
        proof {
            assert(out@.map_values(|v: Vec<u8>| v@) =~= out@.drop_last().map_values(
                |v: Vec<u8>| v@,
            ).push(s@.subrange(tlo as int, thi as int)));
        }
        if last {
            return out;
        }
        cur = next;
    }
}

/// Finds the next line feed at or after `i`.
fn find_nl_line(s: &[u8], i: usize) -> (r: Option<usize>)
    requires
        i <= s@.len(),
    ensures
        match r {
            Option::Some(n) => i <= n < s@.len() && find_nl(s@, i as int) == Option::Some(n as int),
            Option::None => find_nl(s@, i as int) is None,
        },
{
    let mut j = i;
    while j < s.len() && s[j] != 10
        invariant
            i <= j <= s@.len(),
            find_nl(s@, i as int) == find_nl(s@, j as int),
        decreases s@.len() - j,
    {
        j = j + 1;
    }
    if j < s.len() {
        Option::Some(j)
    } else {
        Option::None
    }
}

/// Steps back over trailing line whitespace.
fn ws_back_line(s: &[u8], lo: usize, hi: usize) -> (r: usize)
    requires
        lo <= hi <= s@.len(),
    ensures
        lo <= r <= hi,
        r == ws_back(s@, lo as int, hi as int),
{
    let mut j = hi;
    while j > lo && (s[j - 1] == 32 || s[j - 1] == 9 || s[j - 1] == 13)
        invariant
            lo <= j <= hi <= s@.len(),
            ws_back(s@, lo as int, hi as int) == ws_back(s@, lo as int, j as int),
        decreases j,
    {
        j = j - 1;
    }
    j
}

/// Steps back over the digits that end just before `j`.
fn digit_start_ex(t: &[u8], j: usize) -> (r: usize)
    requires
        j <= t@.len(),
    ensures
        r <= j,
        r as int == digit_start(t@, j as int),
{
    let mut k = j;
    while k > 0 && 48 <= t[k - 1] && t[k - 1] <= 57
        invariant
            k <= j <= t@.len(),
            digit_start(t@, j as int) == digit_start(t@, k as int),
        decreases k,
    {
        k = k - 1;
    }
    k
}

/// Steps back over the whitespace that ends just before `j`.
fn ws_start_ex(t: &[u8], j: usize) -> (r: usize)
    requires
        j <= t@.len(),
    ensures
        r <= j,
        r as int == ws_start(t@, j as int),
{
    let mut k = j;
    while k > 0 && (t[k - 1] == 32 || t[k - 1] == 9 || t[k - 1] == 10 || t[k - 1] == 13)
        invariant
            k <= j <= t@.len(),
            ws_start(t@, j as int) == ws_start(t@, k as int),
        decreases k,
    {
        k = k - 1;
    }
    k
}

/// Compares the window `[lo, hi)` of `t` with `lit`.
fn window_eq(t: &[u8], lo: usize, hi: usize, lit: &Vec<u8>) -> (r: bool)
    requires
        lo <= hi <= t@.len(),
    ensures
        r == (t@.subrange(lo as int, hi as int) == lit@),
{
    if hi - lo != lit.len() {
        return false;
    }
    let mut k: usize = 0;
    while k < lit.len()
        invariant
            k <= lit@.len() == hi - lo,
            lo <= hi <= t@.len(),
            forall|x: int| 0 <= x < k ==> t@.subrange(lo as int, hi as int)[x] == lit@[x],
        decreases lit@.len() - k,
    {
        proof {
            assert(t@.subrange(lo as int, hi as int)[k as int] == t@[lo + k]);
        }
        if t[lo + k] != lit[k] {
            return false;
        }
        k = k + 1;
    }
    proof {
        assert(t@.subrange(lo as int, hi as int) =~= lit@);
    }
    true
}

/// Reads the digit window `[lo, hi)` as an entry's line number, zero
/// when it does not fit.
fn window_line_no(t: &[u8], lo: usize, hi: usize) -> (r: i32)
    requires
        lo <= hi <= t@.len(),
        crate::codec::digits_window(t@, lo as int, hi as int),
    ensures
        r as int == line_no_value(win_val(t@, lo as int, hi as int)),
        r >= 0,
{
    let mut acc: u64 = 0;
    let mut too_big = false;
    let mut j = lo;
    while j < hi
        invariant
            lo <= j <= hi <= t@.len(),
            crate::codec::digits_window(t@, lo as int, hi as int),
            !too_big ==> acc as nat == win_val(t@, lo as int, j as int),
            too_big ==> win_val(t@, lo as int, j as int) > u64::MAX,
        decreases hi - j,
    {
        let d = t[j] - 48;
        if too_big || acc > 0xffff_ffff_ffff_ffffu64 / 10 || (acc == 0xffff_ffff_ffff_ffffu64 / 10
            && d > 5) {
            proof {
                if !too_big {
                    assert(win_val(t@, lo as int, j as int + 1) == acc * 10 + d);
                }
                crate::bytes::lemma_win_val_mono(t@, lo as int, j as int, j as int + 1);
            }
            too_big = true;
        } else {
            acc = acc * 10 + (d as u64);
        }
        j = j + 1;
    }
    if too_big || acc > 0x7fff_ffff {
        0
    } else {
        acc as i32
    }
}

fn warning_prefix_vec() -> (v: Vec<u8>)
    ensures
        v@ == warning_prefix(),
{
    let mut v: Vec<u8> = Vec::new();
    v.push(76);
    v.push(97);
    v.push(84);
    v.push(101);
    v.push(88);
    v.push(32);
    v.push(87);
    v.push(97);
    v.push(114);
    v.push(110);
    v.push(105);
    v.push(110);
    v.push(103);
    v.push(58);
    proof {
        assert(v@ =~= warning_prefix());
    }
    v
}

fn on_input_line_vec() -> (v: Vec<u8>)
    ensures
        v@ == on_input_line_lit(),
{
    let mut v: Vec<u8> = Vec::new();
    v.push(111);
    v.push(110);
    v.push(32);
    v.push(105);
    v.push(110);
    v.push(112);
    v.push(117);
    v.push(116);
    v.push(32);
    v.push(108);
    v.push(105);
    v.push(110);
    v.push(101);
    proof {
        assert(v@ =~= on_input_line_lit());
    }
    v
}

fn on_input_line_sp_vec() -> (v: Vec<u8>)
    ensures
        v@ == on_input_line_lit() + seq![32u8],
{
    let mut v = on_input_line_vec();
    v.push(32);
    proof {
        assert(v@ =~= on_input_line_lit() + seq![32u8]);
    }
    v
}

fn package_lit_vec() -> (v: Vec<u8>)
    ensures
        v@ == package_lit(),
{
    let mut v: Vec<u8> = Vec::new();
    v.push(80);
    v.push(97);
    v.push(99);
    v.push(107);
    v.push(97);
    v.push(103);
    v.push(101);
    proof {
        assert(v@ =~= package_lit());
    }
    v
}

fn class_lit_vec() -> (v: Vec<u8>)
    ensures
        v@ == class_lit(),
{
    let mut v: Vec<u8> = Vec::new();
    v.push(67);
    v.push(108);
    v.push(97);
    v.push(115);
    v.push(115);
    proof {
        assert(v@ =~= class_lit());
    }
    v
}

fn warning_colon_vec() -> (v: Vec<u8>)
    ensures
        v@ == warning_colon_lit(),
{
    let mut v: Vec<u8> = Vec::new();
    v.push(87);
    v.push(97);
    v.push(114);
    v.push(110);
    v.push(105);
    v.push(110);
    v.push(103);
    v.push(58);
    proof {
        assert(v@ =~= warning_colon_lit());
    }
    v
}

/// Matches an error-opening line.
fn match_error_ex(t: &[u8]) -> (r: Option<Vec<u8>>)
    ensures
        match r {
            Option::Some(m) => match_error(t@) == Option::Some(m@),
            Option::None => match_error(t@) is None,
        },
{
    if t.len() >= 2 && t[0] == 33 && (t[1] == 32 || t[1] == 9 || t[1] == 10 || t[1] == 13) {
        let lo = crate::json::ws_end(t, 1, t.len());
        Option::Some(crate::json::copy_window(t, lo, t.len()))
    } else {
        Option::None
    }
}

/// Matches a source-line marker.
fn match_line_no_ex(t: &[u8]) -> (r: Option<i32>)
    ensures
        match r {
            Option::Some(v) => match_line_no(t@) == Option::Some(v as int),
            Option::None => match_line_no(t@) is None,
        },
{
    if t.len() >= 3 && t[0] == 108 && t[1] == 46 && 48 <= t[2] && t[2] <= 57 {
        let de = crate::json::digit_end_ex(t, 2, t.len());
        proof {
            lemma_digit_end_window(t@, 2, de as int, t@.len() as int);
        }
        Option::Some(window_line_no(t, 2, de))
    } else {
        Option::None
    }
}

/// Every byte before the end of a digit run is a digit.
proof fn lemma_digit_end_window(s: Seq<u8>, i: int, e: int, end: int)
    requires
        0 <= i,
        e == digit_end(s, i, end),
    ensures
        crate::codec::digits_window(s, i, e),
    decreases end - i,
{
    if i < end && i < s.len() && is_digit(s[i]) {
        lemma_digit_end_window(s, i + 1, e, end);
    }
}

/// Matches a warning line with its trailing input-line tail.
fn match_warning_ex(t: &[u8]) -> (r: Option<(Vec<u8>, i32)>)
    ensures
        match r {
            Option::Some((m, v)) => match_warning(t@) == Option::Some((m@, v as int)),
            Option::None => match_warning(t@) is None,
        },
{
    let n = t.len();
    if !(n > 15) {
        return Option::None;
    }
    if !window_eq(t, 0, 14, &warning_prefix_vec()) {
        return Option::None;
    }
    if !(t[14] == 32 || t[14] == 9 || t[14] == 10 || t[14] == 13) {
        return Option::None;
    }
    // The tail at the very end of the line.
    if t[n - 1] != 46 {
        return Option::None;
    }
    let d0 = digit_start_ex(t, n - 1);
    let w0 = ws_start_ex(t, d0);
    if !(d0 < n - 1 && w0 < d0 && w0 >= 14) {
        return Option::None;
    }
    if !window_eq(t, w0 - 13, w0, &on_input_line_vec()) {
        return Option::None;
    }
    if !(t[w0 - 14] == 32 || t[w0 - 14] == 9 || t[w0 - 14] == 10 || t[w0 - 14] == 13) {
        return Option::None;
    }
    let sep = w0 - 14;
    if !(sep >= 15) {
        return Option::None;
    }
    proof {
        lemma_digit_start_window(t@, d0 as int, n as int - 1);
    }
    let v = window_line_no(t, d0, n - 1);
    let wsend = crate::json::ws_end(t, 14, n);
    let msg = if wsend <= sep {
        crate::json::copy_window(t, wsend, sep)
    } else {
        Vec::new()
    };
    proof {
        if !(wsend <= sep) {
            assert(msg@ =~= Seq::<u8>::empty());
        }
    }
    Option::Some((msg, v))
}

/// Every byte from the start of a digit run to its end is a digit.
proof fn lemma_digit_start_window(s: Seq<u8>, j: int, e: int)
    requires
        0 <= e <= s.len(),
        j == digit_start(s, e),
    ensures
        crate::codec::digits_window(s, j, e),
        j >= 0,
    decreases e,
{
    if e > 0 && is_digit(s[e - 1]) {
        lemma_digit_start_window(s, digit_start(s, e - 1), e - 1);
        assert forall|k: int| j <= k < e implies is_digit(#[trigger] s[k]) by {
            if k < e - 1 {
                assert(is_digit(s[k]));
            }
        }
    }
}

/// Matches the input-line tail wherever it ends a line.
fn match_input_line_tail_ex(t: &[u8]) -> (r: Option<i32>)
    ensures
        match r {
            Option::Some(v) => match_input_line_tail(t@) == Option::Some(v as int),
            Option::None => match_input_line_tail(t@) is None,
        },
{
    let n = t.len();
    if n == 0 || t[n - 1] != 46 {
        return Option::None;
    }
    let d0 = digit_start_ex(t, n - 1);
    if !(d0 < n - 1 && d0 >= 14) {
        return Option::None;
    }
    if !window_eq(t, d0 - 14, d0, &on_input_line_sp_vec()) {
        return Option::None;
    }
    proof {
        lemma_digit_start_window(t@, d0 as int, n as int - 1);
    }
    Option::Some(window_line_no(t, d0, n - 1))
}

/// Matches a package or class warning's opening line.
fn match_package_ex(t: &[u8]) -> (r: Option<(Vec<u8>, Vec<u8>)>)
    ensures
        match r {
            Option::Some((p, m)) => match_package(t@) == Option::Some((p@, m@)),
            Option::None => match_package(t@) is None,
        },
{
    let n = t.len();
    let plen: usize;
    if n >= 7 && window_eq(t, 0, 7, &package_lit_vec()) {
        plen = 7;
    } else if n >= 5 && window_eq(t, 0, 5, &class_lit_vec()) {
        plen = 5;
    } else {
        return Option::None;
    }
    proof {
        assert(package_lit().len() == 7 && class_lit().len() == 5);
    }
    let w1 = crate::json::ws_end(t, plen, n);
    let we = word_end_ex(t, w1, n);
    let w2 = crate::json::ws_end(t, we, n);
    if !(w1 > plen && we > w1 && w2 > we && n - w2 >= 8) {
        return Option::None;
    }
    if !window_eq(t, w2, w2 + 8, &warning_colon_vec()) {
        return Option::None;
    }
    let w3 = crate::json::ws_end(t, w2 + 8, n);
    if !(w3 > w2 + 8) {
        return Option::None;
    }
    Option::Some((crate::json::copy_window(t, w1, we), crate::json::copy_window(t, w3, n)))
}

/// Advances past word bytes.
fn word_end_ex(t: &[u8], i: usize, end: usize) -> (r: usize)
    requires
        i <= end <= t@.len(),
    ensures
        i <= r <= end,
        r as int == word_end(t@, i as int, end as int),
{
    let mut j = i;
    while j < end && is_word_ex(t[j])
        invariant
            i <= j <= end <= t@.len(),
            word_end(t@, i as int, end as int) == word_end(t@, j as int, end as int),
        decreases end - j,
    {
        j = j + 1;
    }
    j
}

/// Executable word-byte test matching `is_word_byte`.
fn is_word_ex(b: u8) -> (r: bool)
    ensures
        r == is_word_byte(b),
{
    (48 <= b && b <= 57) || (65 <= b && b <= 90) || (97 <= b && b <= 122) || b == 95
}

/// The error's source line, sought on the few lines after `i`.
fn error_lookahead(lines: &Vec<Vec<u8>>, i: usize) -> (r: i32)
    requires
        i < lines@.len(),
    ensures
        r as int == error_line_no(
            lines@.map_values(|v: Vec<u8>| v@),
            i as int + 1,
            min_int(i as int + 10, lines@.len() as int),
        ),
{
    let ghost lm = lines@.map_values(|v: Vec<u8>| v@);
    let nlines = lines.len();
    let limit = if nlines - i > 10 {
        i + 10
    } else {
        nlines
    };
    let mut j = i + 1;
    while j < limit
        invariant
            i + 1 <= j <= limit <= nlines,
            nlines == lines@.len(),
            lm == lines@.map_values(|v: Vec<u8>| v@),
            limit as int == min_int(i as int + 10, lines@.len() as int),
            error_line_no(lm, i as int + 1, limit as int) == error_line_no(
                lm,
                j as int,
                limit as int,
            ),
        decreases limit - j,
    {
        proof {
            assert(lm[j as int] == lines@[j as int]@);
        }
        if let Option::Some(v) = match_line_no_ex(lines[j].as_slice()) {
            return v;
        }
        j = j + 1;
    }
    0
}

/// The package warning's continuation, gathered from the few lines
/// after `i`, with the line number of the first input-line tail.
fn package_lookahead(lines: &Vec<Vec<u8>>, i: usize, first: Vec<u8>) -> (r: (Vec<u8>, i32))
    requires
        i < lines@.len(),
    ensures
        ({
            let (m, v) = package_scan(
                lines@.map_values(|q: Vec<u8>| q@),
                i as int,
                i as int,
                min_int(i as int + 5, lines@.len() as int),
                first@,
            );
            r.0@ == m && r.1 as int == v
        }),
{
    let ghost lm = lines@.map_values(|q: Vec<u8>| q@);
    let ghost first0 = first@;
    let nlines = lines.len();
    let limit = if nlines - i > 5 {
        i + 5
    } else {
        nlines
    };
    let mut parts = first;
    let mut found: i32 = 0;
    let mut j = i;
    while j < limit
        invariant_except_break
            i <= j <= limit <= nlines,
            nlines == lines@.len(),
            lm == lines@.map_values(|q: Vec<u8>| q@),
            limit as int == min_int(i as int + 5, lines@.len() as int),
            found == 0,
            package_scan(lm, i as int, i as int, limit as int, first0) == package_scan(
                lm,
                i as int,
                j as int,
                limit as int,
                parts@,
            ),
        ensures
            ({
                let (m, v) = package_scan(lm, i as int, i as int, limit as int, first0);
                parts@ == m && found as int == v
            }),
        decreases limit - j,
    {
        proof {
            assert(lm[j as int] == lines@[j as int]@);
        }
        let ghost before = parts@;
        if j > i {
            parts.push(32);
            crate::bytes::push_bytes(&mut parts, lines[j].as_slice());
            proof {
                assert(parts@ =~= before + seq![32u8] + lm[j as int]);
            }
        }
        if let Option::Some(v) = match_input_line_tail_ex(lines[j].as_slice()) {
            found = v;
            proof {
                assert(package_scan(lm, i as int, j as int, limit as int, before) == ((
                parts@,
                v as int,
                )));
            }
            break ;
        }
        j = j + 1;
    }
    (parts, found)
}

/// Parses a compiler log into its errors and warnings, in the order
/// they stand in the log.
#[verifier::loop_isolation(false)]
pub fn parse_log(log_content: &str) -> (r: Vec<LogEntry>)
    ensures
        entries_view(r@) == parse_log_spec(log_content.spec_bytes()),
{
    let bytes = log_content.as_bytes();
    let lines = split_lines(bytes);
    let ghost lm = lines@.map_values(|v: Vec<u8>| v@);
    let mut entries: Vec<LogEntry> = Vec::new();
    let mut i: usize = 0;
    let nlines = lines.len();
    while i < nlines
        invariant
            i <= nlines == lines@.len(),
            lm == lines@.map_values(|v: Vec<u8>| v@),
            log_entries(lm, 0) == entries_view(entries@) + log_entries(lm, i as int),
        decreases nlines - i,
    {
        let t = &lines[i];
        proof {
            assert(lm[i as int] == lines@[i as int]@);
        }
        if let Option::Some(msg) = match_error_ex(t.as_slice()) {
            let found = error_lookahead(&lines, i);
            let ghost ev0 = entries_view(entries@);
            let entry = LogEntry {
                kind: "error".to_owned(),
                message: msg,
                line: found,
                file: Option::None,
            };
            entries.push(entry);
            proof {
                let m = entries@.last()@;
                assert(entries_view(entries@) =~= ev0.push(m));
                assert(log_entries(lm, i as int) == seq![m] + log_entries(lm, i as int + 1));
                assert(ev0 + (seq![m] + log_entries(lm, i as int + 1)) =~= entries_view(entries@)
                    + log_entries(lm, i as int + 1));
            }
        } else if let Option::Some((msg, v)) = match_warning_ex(t.as_slice()) {
            let ghost ev0 = entries_view(entries@);
            let entry = LogEntry {
                kind: "warning".to_owned(),
                message: msg,
                line: v,
                file: Option::None,
            };
            entries.push(entry);
            proof {
                let m = entries@.last()@;
                assert(entries_view(entries@) =~= ev0.push(m));
                assert(log_entries(lm, i as int) == seq![m] + log_entries(lm, i as int + 1));
                assert(ev0 + (seq![m] + log_entries(lm, i as int + 1)) =~= entries_view(entries@)
                    + log_entries(lm, i as int + 1));
            }
        } else if let Option::Some((pkg, first)) = match_package_ex(t.as_slice()) {
            let (parts, found) = package_lookahead(&lines, i, first);
            let ghost ev0 = entries_view(entries@);
            let ghost pkg0 = pkg@;
            let mut message = pkg;
            message.push(58);
            message.push(32);
            crate::bytes::push_bytes(&mut message, parts.as_slice());
            proof {
                assert(message@ =~= package_message(pkg0, parts@));
            }
            let entry = LogEntry {
                kind: "warning".to_owned(),
                message,
                line: found,
                file: Option::None,
            };
            entries.push(entry);
            proof {
                let m = entries@.last()@;
                assert(entries_view(entries@) =~= ev0.push(m));
                assert(log_entries(lm, i as int) == seq![m] + log_entries(lm, i as int + 1));
                assert(ev0 + (seq![m] + log_entries(lm, i as int + 1)) =~= entries_view(entries@)
                    + log_entries(lm, i as int + 1));
            }
        }
        i = i + 1;
    }
    entries
}

} // verus!
