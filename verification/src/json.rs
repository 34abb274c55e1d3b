//! The textual payload grammar of the wire protocol.
//!
//! A payload is one JSON-RPC envelope: a single object whose members the
//! transport inspects (`id`, `method`, `params`, `result`, `error`), with
//! unknown members tolerated and skipped.  The values of `params`,
//! `result` and `error.data` are opaque to the transport and are captured
//! as raw text; strings and integers are decoded fully.
//!
//! Everything here is positional: spec functions walk a byte sequence
//! between explicit bounds, and the executable parser mirrors them.

use vstd::prelude::*;
use crate::bytes::{dec_seq, digit_val, int_dec_seq, is_digit, win_val};
use crate::message::{ErrorInfo, ErrorModel, Payload, PayloadModel};

verus! {

// Byte values used by the grammar (ASCII):
// 34 '"'   44 ','   45 '-'   47 '/'   58 ':'   91 '['   92 '\'   93 ']'
// 117 'u'  123 '{'  125 '}'

/// JSON inter-token whitespace: space, tab, line feed, carriage return.
pub open spec fn is_json_ws(b: u8) -> bool {
    b == 32 || b == 9 || b == 10 || b == 13
}

/// First index in `[i, end)` holding a non-whitespace byte, or `end`.
pub open spec fn skip_ws(s: Seq<u8>, i: int, end: int) -> int
    decreases end - i,
{
    if i < end && 0 <= i < s.len() && is_json_ws(s[i]) {
        skip_ws(s, i + 1, end)
    } else {
        i
    }
}

/// Bytes that may continue a number or word atom (digits, letters,
/// sign, dot): `true`, `false`, `null` and numbers are all spelt from
/// these.
pub open spec fn is_atom_byte(b: u8) -> bool {
    is_digit(b) || (65 <= b && b <= 90) || (97 <= b && b <= 122) || b == 45 || b == 43 || b == 46
}

/// First index in `[i, end)` past a run of atom bytes.
pub open spec fn atom_end(s: Seq<u8>, i: int, end: int) -> int
    decreases end - i,
{
    if i < end && 0 <= i < s.len() && is_atom_byte(s[i]) {
        atom_end(s, i + 1, end)
    } else {
        i
    }
}

/// Result of scanning a JSON string body: the decoded content and the
/// index just past the closing quote.
pub ghost enum StrScan {
    Fail,
    Done { content: Seq<u8>, next: int },
}

/// Hexadecimal digit.
pub open spec fn is_hex(b: u8) -> bool {
    is_digit(b) || (97 <= b && b <= 102) || (65 <= b && b <= 70)
}

/// Value of a hexadecimal digit byte.
pub open spec fn hex_val(b: u8) -> nat {
    if is_digit(b) {
        digit_val(b)
    } else if 97 <= b && b <= 102 {
        (b - 87) as nat
    } else if 65 <= b && b <= 70 {
        (b - 55) as nat
    } else {
        0
    }
}

/// Scans a string body starting just after the opening quote,
/// decoding escapes into `acc`.  Escaped code points at or above 128
/// and raw control bytes are rejected; bytes at or above 128 pass
/// through unchanged, so the transport never re-encodes text.
pub open spec fn scan_string(s: Seq<u8>, i: int, end: int, acc: Seq<u8>) -> StrScan
    decreases end - i,
{
    if i >= end || i < 0 || end > s.len() {
        StrScan::Fail
    } else {
        let b = s[i];
        if b == 34 {
            StrScan::Done { content: acc, next: i + 1 }
        } else if b == 92 {
            if i + 1 >= end {
                StrScan::Fail
            } else {
                let e = s[i + 1];
                if e == 34 {
                    scan_string(s, i + 2, end, acc.push(34))
                } else if e == 92 {
                    scan_string(s, i + 2, end, acc.push(92))
                } else if e == 47 {
                    scan_string(s, i + 2, end, acc.push(47))
                } else if e == 98 {
                    scan_string(s, i + 2, end, acc.push(8))
                } else if e == 102 {
                    scan_string(s, i + 2, end, acc.push(12))
                } else if e == 110 {
                    scan_string(s, i + 2, end, acc.push(10))
                } else if e == 114 {
                    scan_string(s, i + 2, end, acc.push(13))
                } else if e == 116 {
                    scan_string(s, i + 2, end, acc.push(9))
                } else if e == 117 {
                    if i + 6 > end {
                        StrScan::Fail
                    } else if is_hex(s[i + 2]) && is_hex(s[i + 3]) && is_hex(s[i + 4]) && is_hex(
                        s[i + 5],
                    ) {
                        let v = hex_val(s[i + 2]) * 4096 + hex_val(s[i + 3]) * 256 + hex_val(
                            s[i + 4],
                        ) * 16 + hex_val(s[i + 5]);
                        if v < 128 {
                            scan_string(s, i + 6, end, acc.push(v as u8))
                        } else {
                            StrScan::Fail
                        }
                    } else {
                        StrScan::Fail
                    }
                } else {
                    StrScan::Fail
                }
            }
        } else if b < 32 {
            StrScan::Fail
        } else {
            scan_string(s, i + 1, end, acc.push(b))
        }
    }
}

/// Consumes the rest of a string without decoding it, for values the
/// transport only skips over; `i` is just past the opening quote.
pub open spec fn skip_string_tail(s: Seq<u8>, i: int, end: int) -> Option<int>
    decreases end - i,
{
    if i >= end || i < 0 || end > s.len() {
        None
    } else if s[i] == 34 {
        Some(i + 1)
    } else if s[i] == 92 {
        if i + 1 >= end {
            None
        } else {
            skip_string_tail(s, i + 2, end)
        }
    } else {
        skip_string_tail(s, i + 1, end)
    }
}

/// Consumes the rest of a bracketed value (`i` is just past the opening
/// bracket, `depth` counts open brackets, including that one).  Bracket
/// kinds are not matched against each other: balance alone decides where
/// the value ends.
pub open spec fn skip_bracket(s: Seq<u8>, i: int, end: int, depth: nat, in_str: bool, esc: bool) -> Option<
    int,
>
    decreases end - i,
{
    if i >= end || i < 0 || end > s.len() {
        None
    } else {
        let b = s[i];
        if in_str {
            if esc {
                skip_bracket(s, i + 1, end, depth, true, false)
            } else if b == 92 {
                skip_bracket(s, i + 1, end, depth, true, true)
            } else if b == 34 {
                skip_bracket(s, i + 1, end, depth, false, false)
            } else {
                skip_bracket(s, i + 1, end, depth, true, false)
            }
        } else {
            if b == 34 {
                skip_bracket(s, i + 1, end, depth, true, false)
            } else if b == 123 || b == 91 {
                skip_bracket(s, i + 1, end, (depth + 1) as nat, false, false)
            } else if b == 125 || b == 93 {
                if depth == 1 {
                    Some(i + 1)
                } else if depth == 0 {
                    None
                } else {
                    skip_bracket(s, i + 1, end, (depth - 1) as nat, false, false)
                }
            } else {
                skip_bracket(s, i + 1, end, depth, false, false)
            }
        }
    }
}

/// Index just past one complete JSON value starting at `i`, or `None`
/// if no value starts there or it is unterminated within `[i, end)`.
pub open spec fn skip_val(s: Seq<u8>, i: int, end: int) -> Option<int> {
    if i >= end || i < 0 || end > s.len() {
        None
    } else {
        let b = s[i];
        if b == 34 {
            skip_string_tail(s, i + 1, end)
        } else if b == 123 || b == 91 {
            skip_bracket(s, i + 1, end, 1, false, false)
        } else if is_atom_byte(b) {
            Some(atom_end(s, i + 1, end))
        } else {
            None
        }
    }
}

/// A byte string that is exactly one complete JSON value: what the
/// transport requires of the opaque `params`, `result` and `data`
/// texts it is handed and hands out.
pub open spec fn is_value_text(s: Seq<u8>) -> bool {
    skip_val(s, 0, s.len() as int) == Some(s.len() as int)
}

/// Result of parsing a decimal integer with optional sign.
pub ghost enum IntScan {
    Fail,
    Done { value: int, next: int },
}

/// First index in `[i, end)` past a run of decimal digits.
pub open spec fn digit_end(s: Seq<u8>, i: int, end: int) -> int
    decreases end - i,
{
    if i < end && 0 <= i < s.len() && is_digit(s[i]) {
        digit_end(s, i + 1, end)
    } else {
        i
    }
}

/// Parses a signed decimal integer that must fit in a 64-bit signed
/// word, as the protocol requires of message identifiers.
pub open spec fn scan_int(s: Seq<u8>, i: int, end: int) -> IntScan {
    if i >= end || i < 0 || end > s.len() {
        IntScan::Fail
    } else {
        let neg = s[i] == 45;
        let d0 = if neg {
            i + 1
        } else {
            i
        };
        let dend = digit_end(s, d0, end);
        if dend == d0 || !(d0 < s.len()) {
            IntScan::Fail
        } else {
            let v = win_val(s, d0, dend);
            if neg {
                if v > 0x8000_0000_0000_0000 {
                    IntScan::Fail
                } else {
                    IntScan::Done { value: -(v as int), next: dend }
                }
            } else {
                if v > 0x7fff_ffff_ffff_ffff {
                    IntScan::Fail
                } else {
                    IntScan::Done { value: v as int, next: dend }
                }
            }
        }
    }
}

/// Lower-case hexadecimal digit byte for a value below 16.
pub open spec fn hexd(n: nat) -> u8 {
    if n < 10 {
        (48 + n) as u8
    } else {
        (87 + n) as u8
    }
}

/// How one byte is written inside a JSON string: quote, backslash and
/// the common control characters get two-byte escapes, other control
/// bytes a `\u00XX` escape, everything else stands as itself.
pub open spec fn esc_byte(b: u8) -> Seq<u8> {
    if b == 34 {
        seq![92u8, 34]
    } else if b == 92 {
        seq![92u8, 92]
    } else if b == 10 {
        seq![92u8, 110]
    } else if b == 13 {
        seq![92u8, 114]
    } else if b == 9 {
        seq![92u8, 116]
    } else if b < 32 {
        seq![92u8, 117, 48, 48, hexd((b / 16) as nat), hexd((b % 16) as nat)]
    } else {
        seq![b]
    }
}

/// The escaped form of a whole string body.
pub open spec fn esc_seq(s: Seq<u8>) -> Seq<u8>
    decreases s.len(),
{
    if s.len() == 0 {
        Seq::empty()
    } else {
        esc_seq(s.drop_last()) + esc_byte(s.last())
    }
}

/// A string as it stands in a payload: quoted and escaped.
pub open spec fn quoted(s: Seq<u8>) -> Seq<u8> {
    seq![34u8] + esc_seq(s) + seq![34u8]
}

/// Appends the escaped form of `src` to `dst`.
pub fn append_escaped(dst: &mut Vec<u8>, src: &[u8])
    ensures
        final(dst)@ == old(dst)@ + esc_seq(src@),
{
    let mut i: usize = 0;
    while i < src.len()
        invariant
            i <= src@.len(),
            dst@ == old(dst)@ + esc_seq(src@.take(i as int)),
        decreases src@.len() - i,
    {
        let b = src[i];
        if b == 34 {
            dst.push(92);
            dst.push(34);
        } else if b == 92 {
            dst.push(92);
            dst.push(92);
        } else if b == 10 {
            dst.push(92);
            dst.push(110);
        } else if b == 13 {
            dst.push(92);
            dst.push(114);
        } else if b == 9 {
            dst.push(92);
            dst.push(116);
        } else if b < 32 {
            dst.push(92);
            dst.push(117);
            dst.push(48);
            dst.push(48);
            let hi = b / 16;
            let lo = b % 16;
            dst.push(if hi < 10 {
                48 + hi
            } else {
                87 + hi
            });
            dst.push(if lo < 10 {
                48 + lo
            } else {
                87 + lo
            });
        } else {
            dst.push(b);
        }
        i = i + 1;
        proof {
            assert(src@.take(i as int).drop_last() =~= src@.take(i as int - 1));
            assert(src@.take(i as int).last() == src@[i as int - 1]);
            assert(dst@ =~= old(dst)@ + esc_seq(src@.take(i as int)));
        }
    }
    proof {
        assert(src@.take(src@.len() as int) =~= src@);
    }
}

// The member names the envelope grammar knows.
pub open spec fn key_jsonrpc() -> Seq<u8> {
    seq![106u8, 115, 111, 110, 114, 112, 99]
}

pub open spec fn key_id() -> Seq<u8> {
    seq![105u8, 100]
}

pub open spec fn key_method() -> Seq<u8> {
    seq![109u8, 101, 116, 104, 111, 100]
}

pub open spec fn key_params() -> Seq<u8> {
    seq![112u8, 97, 114, 97, 109, 115]
}

pub open spec fn key_result() -> Seq<u8> {
    seq![114u8, 101, 115, 117, 108, 116]
}

pub open spec fn key_error() -> Seq<u8> {
    seq![101u8, 114, 114, 111, 114]
}

pub open spec fn key_code() -> Seq<u8> {
    seq![99u8, 111, 100, 101]
}

pub open spec fn key_message() -> Seq<u8> {
    seq![109u8, 101, 115, 115, 97, 103, 101]
}

pub open spec fn key_data() -> Seq<u8> {
    seq![100u8, 97, 116, 97]
}

/// Result of parsing the members of an object: the finished value and
/// the index just past the closing brace.
pub ghost enum ObjScan<M> {
    Fail,
    Done { value: M, next: int },
}

/// Fields of an error object while its members are being parsed.
pub ghost struct ErrorFields {
    pub code: Option<int>,
    pub message: Option<Seq<u8>>,
    pub data: Option<Seq<u8>>,
}

/// Parses the members of an error object, `i` just past its opening
/// brace (or past a separating comma when `first` is false).  Each of
/// `code`, `message` and `data` may be set once; unknown members are
/// skipped.
pub open spec fn scan_error_members(
    s: Seq<u8>,
    i: int,
    end: int,
    acc: ErrorFields,
    first: bool,
) -> ObjScan<ErrorFields>
    decreases end - i,
{
    let i1 = skip_ws(s, i, end);
    if i1 >= end || i < 0 || end > s.len() {
        ObjScan::Fail
    } else if s[i1] == 125 && first && acc == (ErrorFields {
        code: Option::None,
        message: Option::None,
        data: Option::None,
    }) {
        ObjScan::Done { value: acc, next: i1 + 1 }
    } else if s[i1] != 34 {
        ObjScan::Fail
    } else {
        match scan_string(s, i1 + 1, end, Seq::empty()) {
            StrScan::Fail => ObjScan::Fail,
            StrScan::Done { content: key, next: j } => {
                let j1 = skip_ws(s, j, end);
                if j1 >= end || s[j1] != 58 {
                    ObjScan::Fail
                } else {
                    let j2 = skip_ws(s, j1 + 1, end);
                    let step: ObjScan<ErrorFields> = if key == key_code() {
                        if acc.code is Some {
                            ObjScan::Fail
                        } else {
                            match scan_int(s, j2, end) {
                                IntScan::Fail => ObjScan::Fail,
                                IntScan::Done { value, next } => ObjScan::Done {
                                    value: ErrorFields { code: Option::Some(value), ..acc },
                                    next,
                                },
                            }
                        }
                    } else if key == key_message() {
                        if acc.message is Some || j2 >= end || s[j2] != 34 {
                            ObjScan::Fail
                        } else {
                            match scan_string(s, j2 + 1, end, Seq::empty()) {
                                StrScan::Fail => ObjScan::Fail,
                                StrScan::Done { content, next } => ObjScan::Done {
                                    value: ErrorFields { message: Option::Some(content), ..acc },
                                    next,
                                },
                            }
                        }
                    } else if key == key_data() {
                        if acc.data is Some {
                            ObjScan::Fail
                        } else {
                            match skip_val(s, j2, end) {
                                Option::None => ObjScan::Fail,
                                Option::Some(next) => ObjScan::Done {
                                    value: ErrorFields {
                                        data: Option::Some(s.subrange(j2, next)),
                                        ..acc
                                    },
                                    next,
                                },
                            }
                        }
                    } else {
                        match skip_val(s, j2, end) {
                            Option::None => ObjScan::Fail,
                            Option::Some(next) => ObjScan::Done { value: acc, next },
                        }
                    };
                    match step {
                        ObjScan::Fail => ObjScan::Fail,
                        ObjScan::Done { value: acc2, next: k } => {
                            let k1 = skip_ws(s, k, end);
                            if k1 >= end {
                                ObjScan::Fail
                            } else if s[k1] == 125 {
                                ObjScan::Done { value: acc2, next: k1 + 1 }
                            } else if s[k1] == 44 && k1 + 1 > i {
                                scan_error_members(s, k1 + 1, end, acc2, false)
                            } else {
                                ObjScan::Fail
                            }
                        },
                    }
                }
            },
        }
    }
}

/// Parses one complete error object starting at `i`: both `code` and
/// `message` are required, as the protocol's error shape demands.
pub open spec fn scan_error(s: Seq<u8>, i: int, end: int) -> ObjScan<ErrorModel> {
    if i >= end || i < 0 || end > s.len() || s[i] != 123 {
        ObjScan::Fail
    } else {
        match scan_error_members(
            s,
            i + 1,
            end,
            ErrorFields { code: Option::None, message: Option::None, data: Option::None },
            true,
        ) {
            ObjScan::Fail => ObjScan::Fail,
            ObjScan::Done { value: f, next } => match (f.code, f.message) {
                (Option::Some(code), Option::Some(message)) => ObjScan::Done {
                    value: ErrorModel { code, message, data: f.data },
                    next,
                },
                _ => ObjScan::Fail,
            },
        }
    }
}

/// Parses the members of the envelope object, `i` just past its opening
/// brace (or past a separating comma when `first` is false).  Known
/// members may each be set once; unknown members are skipped.
pub open spec fn scan_members(
    s: Seq<u8>,
    i: int,
    end: int,
    acc: PayloadModel,
    first: bool,
) -> ObjScan<PayloadModel>
    decreases end - i,
{
    let i1 = skip_ws(s, i, end);
    if i1 >= end || i < 0 || end > s.len() {
        ObjScan::Fail
    } else if s[i1] == 125 && first && acc == PayloadModel::empty() {
        ObjScan::Done { value: acc, next: i1 + 1 }
    } else if s[i1] != 34 {
        ObjScan::Fail
    } else {
        match scan_string(s, i1 + 1, end, Seq::empty()) {
            StrScan::Fail => ObjScan::Fail,
            StrScan::Done { content: key, next: j } => {
                let j1 = skip_ws(s, j, end);
                if j1 >= end || s[j1] != 58 {
                    ObjScan::Fail
                } else {
                    let j2 = skip_ws(s, j1 + 1, end);
                    let step: ObjScan<PayloadModel> = if key == key_id() {
                        if acc.id is Some {
                            ObjScan::Fail
                        } else {
                            match scan_int(s, j2, end) {
                                IntScan::Fail => ObjScan::Fail,
                                IntScan::Done { value, next } => ObjScan::Done {
                                    value: PayloadModel { id: Option::Some(value), ..acc },
                                    next,
                                },
                            }
                        }
                    } else if key == key_method() {
                        if acc.method is Some || j2 >= end || s[j2] != 34 {
                            ObjScan::Fail
                        } else {
                            match scan_string(s, j2 + 1, end, Seq::empty()) {
                                StrScan::Fail => ObjScan::Fail,
                                StrScan::Done { content, next } => ObjScan::Done {
                                    value: PayloadModel { method: Option::Some(content), ..acc },
                                    next,
                                },
                            }
                        }
                    } else if key == key_params() {
                        if acc.params is Some {
                            ObjScan::Fail
                        } else {
                            match skip_val(s, j2, end) {
                                Option::None => ObjScan::Fail,
                                Option::Some(next) => ObjScan::Done {
                                    value: PayloadModel {
                                        params: Option::Some(s.subrange(j2, next)),
                                        ..acc
                                    },
                                    next,
                                },
                            }
                        }
                    } else if key == key_result() {
                        if acc.result is Some {
                            ObjScan::Fail
                        } else {
                            match skip_val(s, j2, end) {
                                Option::None => ObjScan::Fail,
                                Option::Some(next) => ObjScan::Done {
                                    value: PayloadModel {
                                        result: Option::Some(s.subrange(j2, next)),
                                        ..acc
                                    },
                                    next,
                                },
                            }
                        }
                    } else if key == key_error() {
                        if acc.error is Some {
                            ObjScan::Fail
                        } else {
                            match scan_error(s, j2, end) {
                                ObjScan::Fail => ObjScan::Fail,
                                ObjScan::Done { value, next } => ObjScan::Done {
                                    value: PayloadModel { error: Option::Some(value), ..acc },
                                    next,
                                },
                            }
                        }
                    } else {
                        match skip_val(s, j2, end) {
                            Option::None => ObjScan::Fail,
                            Option::Some(next) => ObjScan::Done { value: acc, next },
                        }
                    };
                    match step {
                        ObjScan::Fail => ObjScan::Fail,
                        ObjScan::Done { value: acc2, next: k } => {
                            let k1 = skip_ws(s, k, end);
                            if k1 >= end {
                                ObjScan::Fail
                            } else if s[k1] == 125 {
                                ObjScan::Done { value: acc2, next: k1 + 1 }
                            } else if s[k1] == 44 && k1 + 1 > i {
                                scan_members(s, k1 + 1, end, acc2, false)
                            } else {
                                ObjScan::Fail
                            }
                        },
                    }
                }
            },
        }
    }
}

/// Advances past whitespace.
pub fn ws_end(s: &[u8], i: usize, end: usize) -> (r: usize)
    requires
        i <= end <= s@.len(),
    ensures
        i <= r <= end,
        r == skip_ws(s@, i as int, end as int),
{
    let mut j = i;
    while j < end && (s[j] == 32 || s[j] == 9 || s[j] == 10 || s[j] == 13)
        invariant
            i <= j <= end <= s@.len(),
            skip_ws(s@, i as int, end as int) == skip_ws(s@, j as int, end as int),
        decreases end - j,
    {
        j = j + 1;
    }
    j
}

/// Executable atom-byte test matching `is_atom_byte`.
fn is_atom_ex(b: u8) -> (r: bool)
    ensures
        r == is_atom_byte(b),
{
    (48 <= b && b <= 57) || (65 <= b && b <= 90) || (97 <= b && b <= 122) || b == 45 || b == 43
        || b == 46
}

/// Advances past atom bytes.
fn atom_end_ex(s: &[u8], i: usize, end: usize) -> (r: usize)
    requires
        i <= end <= s@.len(),
    ensures
        i <= r <= end,
        r == atom_end(s@, i as int, end as int),
{
    let mut j = i;
    while j < end && is_atom_ex(s[j])
        invariant
            i <= j <= end <= s@.len(),
            atom_end(s@, i as int, end as int) == atom_end(s@, j as int, end as int),
        decreases end - j,
    {
        j = j + 1;
    }
    j
}

/// Advances past decimal digits.
pub fn digit_end_ex(s: &[u8], i: usize, end: usize) -> (r: usize)
    requires
        i <= end <= s@.len(),
    ensures
        i <= r <= end,
        r == digit_end(s@, i as int, end as int),
{
    let mut j = i;
    while j < end && 48 <= s[j] && s[j] <= 57
        invariant
            i <= j <= end <= s@.len(),
            digit_end(s@, i as int, end as int) == digit_end(s@, j as int, end as int),
        decreases end - j,
    {
        j = j + 1;
    }
    j
}

/// Decodes a string body, `i` just past the opening quote.
pub fn parse_string(s: &[u8], i: usize, end: usize) -> (r: Option<(Vec<u8>, usize)>)
    requires
        i <= end <= s@.len(),
    ensures
        match r {
            Option::Some((c, n)) => i < n <= end && scan_string(s@, i as int, end as int, Seq::empty())
                == (StrScan::Done { content: c@, next: n as int }),
            Option::None => scan_string(s@, i as int, end as int, Seq::empty()) is Fail,
        },
{
    let mut acc: Vec<u8> = Vec::new();
    let mut j = i;
    loop
        invariant
            i <= j <= end <= s@.len(),
            scan_string(s@, i as int, end as int, Seq::empty()) == scan_string(
                s@,
                j as int,
                end as int,
                acc@,
            ),
        decreases end - j,
    {
        if j >= end {
            return Option::None;
        }
        let b = s[j];
        if b == 34 {
            return Option::Some((acc, j + 1));
        } else if b == 92 {
            if j + 1 >= end {
                return Option::None;
            }
            let e = s[j + 1];
            if e == 34 {
                acc.push(34);
            } else if e == 92 {
                acc.push(92);
            } else if e == 47 {
                acc.push(47);
            } else if e == 98 {
                acc.push(8);
            } else if e == 102 {
                acc.push(12);
            } else if e == 110 {
                acc.push(10);
            } else if e == 114 {
                acc.push(13);
            } else if e == 116 {
                acc.push(9);
            } else if e == 117 {
                if end - j < 6 {
                    return Option::None;
                }
                let h0 = hex_digit(s[j + 2]);
                let h1 = hex_digit(s[j + 3]);
                let h2 = hex_digit(s[j + 4]);
                let h3 = hex_digit(s[j + 5]);
                match (h0, h1, h2, h3) {
                    (
                        Option::Some(a),
                        Option::Some(b1),
                        Option::Some(c),
                        Option::Some(d),
                    ) => {
                        let v: u32 = (a as u32) * 4096 + (b1 as u32) * 256 + (c as u32) * 16
                            + (d as u32);
                        if v < 128 {
                            acc.push(v as u8);
                            j = j + 6;
                            continue ;
                        } else {
                            return Option::None;
                        }
                    },
                    _ => {
                        return Option::None;
                    },
                }
            } else {
                return Option::None;
            }
            j = j + 2;
            continue ;
        } else if b < 32 {
            return Option::None;
        } else {
            acc.push(b);
            j = j + 1;
        }
    }
}

/// Numeric value of a hexadecimal digit byte, if it is one.
fn hex_digit(b: u8) -> (r: Option<u8>)
    ensures
        match r {
            Option::Some(v) => is_hex(b) && v as nat == hex_val(b),
            Option::None => !is_hex(b),
        },
{
    if 48 <= b && b <= 57 {
        Option::Some(b - 48)
    } else if 97 <= b && b <= 102 {
        Option::Some(b - 87)
    } else if 65 <= b && b <= 70 {
        Option::Some(b - 55)
    } else {
        Option::None
    }
}

/// Skips a string body without decoding it.
fn skip_string_tail_ex(s: &[u8], i: usize, end: usize) -> (r: Option<usize>)
    requires
        i <= end <= s@.len(),
    ensures
        match r {
            Option::Some(n) => i < n <= end && skip_string_tail(s@, i as int, end as int)
                == Option::Some(n as int),
            Option::None => skip_string_tail(s@, i as int, end as int) is None,
        },
{
    let mut j = i;
    loop
        invariant
            i <= j <= end <= s@.len(),
            skip_string_tail(s@, i as int, end as int) == skip_string_tail(
                s@,
                j as int,
                end as int,
            ),
        decreases end - j,
    {
        if j >= end {
            return Option::None;
        }
        if s[j] == 34 {
            return Option::Some(j + 1);
        } else if s[j] == 92 {
            if j + 1 >= end {
                return Option::None;
            }
            j = j + 2;
        } else {
            j = j + 1;
        }
    }
}

/// Skips a bracketed value by balance, `i` just past the opening
/// bracket.
fn skip_bracket_ex(s: &[u8], i: usize, end: usize) -> (r: Option<usize>)
    requires
        i <= end <= s@.len(),
    ensures
        match r {
            Option::Some(n) => i < n <= end && skip_bracket(s@, i as int, end as int, 1, false, false)
                == Option::Some(n as int),
            Option::None => skip_bracket(s@, i as int, end as int, 1, false, false) is None,
        },
{
    let mut j = i;
    let mut depth: usize = 1;
    let mut in_str = false;
    let mut esc = false;
    loop
        invariant
            i <= j <= end <= s@.len(),
            depth >= 1,
            depth <= j - i + 1,
            esc ==> in_str,
            skip_bracket(s@, i as int, end as int, 1, false, false) == skip_bracket(
                s@,
                j as int,
                end as int,
                depth as nat,
                in_str,
                esc,
            ),
        decreases end - j,
    {
        if j >= end {
            return Option::None;
        }
        let b = s[j];
        if in_str {
            if esc {
                esc = false;
            } else if b == 92 {
                esc = true;
            } else if b == 34 {
                in_str = false;
            }
            j = j + 1;
        } else {
            if b == 34 {
                in_str = true;
                j = j + 1;
            } else if b == 123 || b == 91 {
                if depth == usize::MAX {
                    // Deeper nesting than the remaining bytes could ever
                    // close again, so the value cannot terminate.
                    proof {
                        lemma_bracket_too_deep(
                            s@,
                            j as int + 1,
                            end as int,
                            depth as nat + 1,
                            false,
                            false,
                        );
                    }
                    return Option::None;
                }
                depth = depth + 1;
                j = j + 1;
            } else if b == 125 || b == 93 {
                if depth == 1 {
                    return Option::Some(j + 1);
                }
                depth = depth - 1;
                j = j + 1;
            } else {
                j = j + 1;
            }
        }
    }
}

/// A bracket scan that owes more closing brackets than there are bytes
/// left can never finish.
proof fn lemma_bracket_too_deep(s: Seq<u8>, j: int, end: int, depth: nat, in_str: bool, esc: bool)
    requires
        depth > end - j,
    ensures
        skip_bracket(s, j, end, depth, in_str, esc) is None,
    decreases end - j,
{
    if j >= end || j < 0 || end > s.len() {
    } else {
        let b = s[j];
        if in_str {
            if esc {
                lemma_bracket_too_deep(s, j + 1, end, depth, true, false);
            } else if b == 92 {
                lemma_bracket_too_deep(s, j + 1, end, depth, true, true);
            } else if b == 34 {
                lemma_bracket_too_deep(s, j + 1, end, depth, false, false);
            } else {
                lemma_bracket_too_deep(s, j + 1, end, depth, true, false);
            }
        } else {
            if b == 34 {
                lemma_bracket_too_deep(s, j + 1, end, depth, true, false);
            } else if b == 123 || b == 91 {
                lemma_bracket_too_deep(s, j + 1, end, (depth + 1) as nat, false, false);
            } else if b == 125 || b == 93 {
                if depth > 1 {
                    lemma_bracket_too_deep(s, j + 1, end, (depth - 1) as nat, false, false);
                }
            } else {
                lemma_bracket_too_deep(s, j + 1, end, depth, false, false);
            }
        }
    }
}

/// Advances past one complete JSON value.
pub fn skip_val_ex(s: &[u8], i: usize, end: usize) -> (r: Option<usize>)
    requires
        i <= end <= s@.len(),
    ensures
        match r {
            Option::Some(n) => i < n <= end && skip_val(s@, i as int, end as int) == Option::Some(
                n as int,
            ),
            Option::None => skip_val(s@, i as int, end as int) is None,
        },
{
    if i >= end {
        return Option::None;
    }
    let b = s[i];
    if b == 34 {
        skip_string_tail_ex(s, i + 1, end)
    } else if b == 123 || b == 91 {
        skip_bracket_ex(s, i + 1, end)
    } else if (48 <= b && b <= 57) || (65 <= b && b <= 90) || (97 <= b && b <= 122) || b == 45 || b
        == 43 || b == 46 {
        Option::Some(atom_end_ex(s, i + 1, end))
    } else {
        Option::None
    }
}

/// Parses a signed decimal integer fitting a 64-bit signed word.
pub fn parse_int(s: &[u8], i: usize, end: usize) -> (r: Option<(i64, usize)>)
    requires
        i <= end <= s@.len(),
    ensures
        match r {
            Option::Some((v, n)) => i < n <= end && scan_int(s@, i as int, end as int)
                == (IntScan::Done { value: v as int, next: n as int }),
            Option::None => scan_int(s@, i as int, end as int) is Fail,
        },
{
    if i >= end {
        return Option::None;
    }
    let neg = s[i] == 45;
    let d0 = if neg {
        i + 1
    } else {
        i
    };
    if d0 > end {
        return Option::None;
    }
    let dend = digit_end_ex(s, d0, end);
    if dend == d0 {
        return Option::None;
    }
    // Accumulate the digit window's value, tracking overflow past u64.
    let mut acc: u64 = 0;
    let mut too_big = false;
    let mut j = d0;
    while j < dend
        invariant
            d0 <= j <= dend <= end <= s@.len(),
            dend == digit_end(s@, d0 as int, end as int),
            !too_big ==> acc as nat == win_val(s@, d0 as int, j as int),
            too_big ==> win_val(s@, d0 as int, j as int) > u64::MAX,
        decreases dend - j,
    {
        proof {
            lemma_digit_window(s@, d0 as int, j as int, end as int);
        }
        let d = s[j] - 48;
        if too_big || acc > 0xffff_ffff_ffff_ffffu64 / 10 || (acc == 0xffff_ffff_ffff_ffffu64 / 10
            && d > 5) {
            proof {
                if !too_big {
                    assert(win_val(s@, d0 as int, j as int + 1) == acc * 10 + d);
                }
                lemma_win_val_mono_step(s@, d0 as int, j as int);
            }
            too_big = true;
        } else {
            acc = acc * 10 + (d as u64);
        }
        j = j + 1;
    }
    if neg {
        if too_big || acc > 0x8000_0000_0000_0000u64 {
            return Option::None;
        }
        let v: i64 = if acc == 0x8000_0000_0000_0000u64 {
            i64::MIN
        } else {
            -(acc as i64)
        };
        Option::Some((v, dend))
    } else {
        if too_big || acc > 0x7fff_ffff_ffff_ffffu64 {
            return Option::None;
        }
        Option::Some((acc as i64, dend))
    }
}

/// Inside the digit window found by `digit_end`, every byte up to the
/// end is a digit.
proof fn lemma_digit_window(s: Seq<u8>, d0: int, j: int, end: int)
    requires
        0 <= d0 <= j < digit_end(s, d0, end),
        end <= s.len(),
    ensures
        is_digit(s[j]),
    decreases j - d0,
{
    if j > d0 {
        lemma_digit_window(s, d0 + 1, j, end);
    }
}

/// One more digit never shrinks a window's value.
proof fn lemma_win_val_mono_step(s: Seq<u8>, d0: int, j: int)
    ensures
        win_val(s, d0, j + 1) >= win_val(s, d0, j),
{
}

/// Parses a complete payload: one envelope object between `lo` and
/// `hi`, with nothing but whitespace around it.
pub open spec fn parse_payload(s: Seq<u8>, lo: int, hi: int) -> Option<PayloadModel> {
    let i = skip_ws(s, lo, hi);
    if lo < 0 || hi > s.len() || i >= hi || s[i] != 123 {
        Option::None
    } else {
        match scan_members(s, i + 1, hi, PayloadModel::empty(), true) {
            ObjScan::Fail => Option::None,
            ObjScan::Done { value, next } => {
                if skip_ws(s, next, hi) == hi {
                    Option::Some(value)
                } else {
                    Option::None
                }
            },
        }
    }
}

/// Byte-wise vector equality.
pub fn vec_u8_eq(a: &Vec<u8>, b: &Vec<u8>) -> (r: bool)
    ensures
        r == (a@ == b@),
{
    if a.len() != b.len() {
        return false;
    }
    let mut i: usize = 0;
    while i < a.len()
        invariant
            i <= a.len() == b.len(),
            forall|k: int| 0 <= k < i ==> a@[k] == b@[k],
        decreases a.len() - i,
    {
        if a[i] != b[i] {
            return false;
        }
        i = i + 1;
    }
    proof {
        assert(a@ =~= b@);
    }
    true
}

/// Copies the window `[lo, hi)` of `s` into a fresh vector.
pub fn copy_window(s: &[u8], lo: usize, hi: usize) -> (r: Vec<u8>)
    requires
        lo <= hi <= s@.len(),
    ensures
        r@ == s@.subrange(lo as int, hi as int),
{
    let mut v: Vec<u8> = Vec::new();
    let mut j = lo;
    while j < hi
        invariant
            lo <= j <= hi <= s@.len(),
            v@ == s@.subrange(lo as int, j as int),
        decreases hi - j,
    {
        v.push(s[j]);
        j = j + 1;
        proof {
            assert(v@ =~= s@.subrange(lo as int, j as int));
        }
    }
    v
}

fn key_id_vec() -> (v: Vec<u8>)
    ensures
        v@ == key_id(),
{
    let mut v: Vec<u8> = Vec::new();
    v.push(105);
    v.push(100);
    proof {
        assert(v@ =~= key_id());
    }
    v
}

fn key_method_vec() -> (v: Vec<u8>)
    ensures
        v@ == key_method(),
{
    let mut v: Vec<u8> = Vec::new();
    v.push(109);
    v.push(101);
    v.push(116);
    v.push(104);
    v.push(111);
    v.push(100);
    proof {
        assert(v@ =~= key_method());
    }
    v
}

fn key_params_vec() -> (v: Vec<u8>)
    ensures
        v@ == key_params(),
{
    let mut v: Vec<u8> = Vec::new();
    v.push(112);
    v.push(97);
    v.push(114);
    v.push(97);
    v.push(109);
    v.push(115);
    proof {
        assert(v@ =~= key_params());
    }
    v
}

fn key_result_vec() -> (v: Vec<u8>)
    ensures
        v@ == key_result(),
{
    let mut v: Vec<u8> = Vec::new();
    v.push(114);
    v.push(101);
    v.push(115);
    v.push(117);
    v.push(108);
    v.push(116);
    proof {
        assert(v@ =~= key_result());
    }
    v
}

fn key_error_vec() -> (v: Vec<u8>)
    ensures
        v@ == key_error(),
{
    let mut v: Vec<u8> = Vec::new();
    v.push(101);
    v.push(114);
    v.push(114);
    v.push(111);
    v.push(114);
    proof {
        assert(v@ =~= key_error());
    }
    v
}

fn key_code_vec() -> (v: Vec<u8>)
    ensures
        v@ == key_code(),
{
    let mut v: Vec<u8> = Vec::new();
    v.push(99);
    v.push(111);
    v.push(100);
    v.push(101);
    proof {
        assert(v@ =~= key_code());
    }
    v
}

fn key_message_vec() -> (v: Vec<u8>)
    ensures
        v@ == key_message(),
{
    let mut v: Vec<u8> = Vec::new();
    v.push(109);
    v.push(101);
    v.push(115);
    v.push(115);
    v.push(97);
    v.push(103);
    v.push(101);
    proof {
        assert(v@ =~= key_message());
    }
    v
}

fn key_data_vec() -> (v: Vec<u8>)
    ensures
        v@ == key_data(),
{
    let mut v: Vec<u8> = Vec::new();
    v.push(100);
    v.push(97);
    v.push(116);
    v.push(97);
    proof {
        assert(v@ =~= key_data());
    }
    v
}

/// The error-fields model of three optional executable fields.
pub open spec fn error_fields_of(
    code: Option<i64>,
    message: Option<Vec<u8>>,
    data: Option<Vec<u8>>,
) -> ErrorFields {
    ErrorFields {
        code: match code {
            Option::None => Option::None,
            Option::Some(c) => Option::Some(c as int),
        },
        message: match message {
            Option::None => Option::None,
            Option::Some(m) => Option::Some(m@),
        },
        data: match data {
            Option::None => Option::None,
            Option::Some(d) => Option::Some(d@),
        },
    }
}

/// Parses one complete error object starting at `i`.
#[verifier::loop_isolation(false)]
pub fn parse_error(s: &[u8], i: usize, end: usize) -> (r: Option<(ErrorInfo, usize)>)
    requires
        i <= end <= s@.len(),
    ensures
        match r {
            Option::Some((e, n)) => i < n <= end && scan_error(s@, i as int, end as int)
                == (ObjScan::Done { value: e@, next: n as int }),
            Option::None => scan_error(s@, i as int, end as int) is Fail,
        },
{
    if i >= end {
        return Option::None;
    }
    if s[i] != 123 {
        return Option::None;
    }
    let mut code_f: Option<i64> = Option::None;
    let mut msg_f: Option<Vec<u8>> = Option::None;
    let mut data_f: Option<Vec<u8>> = Option::None;
    let mut cur: usize = i + 1;
    let mut first = true;
    loop
        invariant
            i < cur <= end <= s@.len(),
            first ==> (code_f is None && msg_f is None && data_f is None),
            scan_error_members(
                s@,
                i as int + 1,
                end as int,
                (ErrorFields { code: Option::None, message: Option::None, data: Option::None }),
                true,
            ) == scan_error_members(
                s@,
                cur as int,
                end as int,
                error_fields_of(code_f, msg_f, data_f),
                first,
            ),
        decreases end - cur,
    {
        let i1 = ws_end(s, cur, end);
        if i1 >= end {
            return Option::None;
        }
        if s[i1] == 125 && first {
            // Empty object: no code or message, so no valid error.
            return Option::None;
        }
        if s[i1] != 34 {
            return Option::None;
        }
        let (key, j) = match parse_string(s, i1 + 1, end) {
            Option::None => {
                return Option::None;
            },
            Option::Some(kj) => kj,
        };
        let j1 = ws_end(s, j, end);
        if j1 >= end {
            return Option::None;
        }
        if s[j1] != 58 {
            return Option::None;
        }
        let j2 = ws_end(s, j1 + 1, end);
        let k: usize;
        if vec_u8_eq(&key, &key_code_vec()) {
            if code_f.is_some() {
                return Option::None;
            }
            match parse_int(s, j2, end) {
                Option::None => {
                    return Option::None;
                },
                Option::Some((v, n)) => {
                    code_f = Option::Some(v);
                    k = n;
                },
            }
        } else if vec_u8_eq(&key, &key_message_vec()) {
            if msg_f.is_some() {
                return Option::None;
            }
            if j2 >= end {
                return Option::None;
            }
            if s[j2] != 34 {
                return Option::None;
            }
            match parse_string(s, j2 + 1, end) {
                Option::None => {
                    return Option::None;
                },
                Option::Some((m, n)) => {
                    msg_f = Option::Some(m);
                    k = n;
                },
            }
        } else if vec_u8_eq(&key, &key_data_vec()) {
            if data_f.is_some() {
                return Option::None;
            }
            match skip_val_ex(s, j2, end) {
                Option::None => {
                    return Option::None;
                },
                Option::Some(n) => {
                    data_f = Option::Some(copy_window(s, j2, n));
                    k = n;
                },
            }
        } else {
            match skip_val_ex(s, j2, end) {
                Option::None => {
                    return Option::None;
                },
                Option::Some(n) => {
                    k = n;
                },
            }
        }
        let k1 = ws_end(s, k, end);
        if k1 >= end {
            return Option::None;
        }
        if s[k1] == 125 {
            // End of the object: both required fields must be present.
            match (code_f, msg_f) {
                (Option::Some(code), Option::Some(message)) => {
                    return Option::Some((ErrorInfo { code, message, data: data_f }, k1 + 1));
                },
                _ => {
                    return Option::None;
                },
            }
        }
        if s[k1] != 44 {
            return Option::None;
        }
        cur = k1 + 1;
        first = false;
    }
}

/// The payload model of five optional executable fields.
pub open spec fn payload_fields_of(
    id: Option<i64>,
    method: Option<Vec<u8>>,
    params: Option<Vec<u8>>,
    result: Option<Vec<u8>>,
    error: Option<ErrorInfo>,
) -> PayloadModel {
    PayloadModel {
        id: match id {
            Option::None => Option::None,
            Option::Some(n) => Option::Some(n as int),
        },
        method: match method {
            Option::None => Option::None,
            Option::Some(m) => Option::Some(m@),
        },
        params: match params {
            Option::None => Option::None,
            Option::Some(p) => Option::Some(p@),
        },
        result: match result {
            Option::None => Option::None,
            Option::Some(r) => Option::Some(r@),
        },
        error: match error {
            Option::None => Option::None,
            Option::Some(e) => Option::Some(e@),
        },
    }
}

/// Parses a complete payload between `lo` and `hi`: one envelope
/// object with nothing but whitespace around it.
#[verifier::loop_isolation(false)]
pub fn parse_payload_ex(s: &[u8], lo: usize, hi: usize) -> (r: Option<Payload>)
    requires
        lo <= hi <= s@.len(),
    ensures
        match r {
            Option::Some(p) => parse_payload(s@, lo as int, hi as int) == Option::Some(p@),
            Option::None => parse_payload(s@, lo as int, hi as int) is None,
        },
{
    let start = ws_end(s, lo, hi);
    if start >= hi {
        return Option::None;
    }
    if s[start] != 123 {
        return Option::None;
    }
    let mut id_f: Option<i64> = Option::None;
    let mut method_f: Option<Vec<u8>> = Option::None;
    let mut params_f: Option<Vec<u8>> = Option::None;
    let mut result_f: Option<Vec<u8>> = Option::None;
    let mut error_f: Option<ErrorInfo> = Option::None;
    let mut cur: usize = start + 1;
    let mut first = true;
    let end = hi;
    loop
        invariant
            start < cur <= end <= s@.len(),
            first ==> (id_f is None && method_f is None && params_f is None && result_f is None
                && error_f is None),
            scan_members(s@, start as int + 1, end as int, PayloadModel::empty(), true)
                == scan_members(
                s@,
                cur as int,
                end as int,
                payload_fields_of(id_f, method_f, params_f, result_f, error_f),
                first,
            ),
        decreases end - cur,
    {
        let i1 = ws_end(s, cur, end);
        if i1 >= end {
            return Option::None;
        }
        if s[i1] == 125 && first {
            // An empty envelope: nothing but whitespace may follow.
            if ws_end(s, i1 + 1, hi) == hi {
                return Option::Some(
                    Payload {
                        id: Option::None,
                        method: Option::None,
                        params: Option::None,
                        result: Option::None,
                        error: Option::None,
                    },
                );
            } else {
                return Option::None;
            }
        }
        if s[i1] != 34 {
            return Option::None;
        }
        let (key, j) = match parse_string(s, i1 + 1, end) {
            Option::None => {
                return Option::None;
            },
            Option::Some(kj) => kj,
        };
        let j1 = ws_end(s, j, end);
        if j1 >= end {
            return Option::None;
        }
        if s[j1] != 58 {
            return Option::None;
        }
        let j2 = ws_end(s, j1 + 1, end);
        let k: usize;
        if vec_u8_eq(&key, &key_id_vec()) {
            if id_f.is_some() {
                return Option::None;
            }
            match parse_int(s, j2, end) {
                Option::None => {
                    return Option::None;
                },
                Option::Some((v, n)) => {
                    id_f = Option::Some(v);
                    k = n;
                },
            }
        } else if vec_u8_eq(&key, &key_method_vec()) {
            if method_f.is_some() {
                return Option::None;
            }
            if j2 >= end {
                return Option::None;
            }
            if s[j2] != 34 {
                return Option::None;
            }
            match parse_string(s, j2 + 1, end) {
                Option::None => {
                    return Option::None;
                },
                Option::Some((m, n)) => {
                    method_f = Option::Some(m);
                    k = n;
                },
            }
        } else if vec_u8_eq(&key, &key_params_vec()) {
            if params_f.is_some() {
                return Option::None;
            }
            match skip_val_ex(s, j2, end) {
                Option::None => {
                    return Option::None;
                },
                Option::Some(n) => {
                    params_f = Option::Some(copy_window(s, j2, n));
                    k = n;
                },
            }
        } else if vec_u8_eq(&key, &key_result_vec()) {
            if result_f.is_some() {
                return Option::None;
            }
            match skip_val_ex(s, j2, end) {
                Option::None => {
                    return Option::None;
                },
                Option::Some(n) => {
                    result_f = Option::Some(copy_window(s, j2, n));
                    k = n;
                },
            }
        } else if vec_u8_eq(&key, &key_error_vec()) {
            if error_f.is_some() {
                return Option::None;
            }
            match parse_error(s, j2, end) {
                Option::None => {
                    return Option::None;
                },
                Option::Some((e, n)) => {
                    error_f = Option::Some(e);
                    k = n;
                },
            }
        } else {
            match skip_val_ex(s, j2, end) {
                Option::None => {
                    return Option::None;
                },
                Option::Some(n) => {
                    k = n;
                },
            }
        }
        let k1 = ws_end(s, k, end);
        if k1 >= end {
            return Option::None;
        }
        if s[k1] == 125 {
            // End of the envelope: nothing but whitespace may follow.
            if ws_end(s, k1 + 1, hi) == hi {
                return Option::Some(
                    Payload {
                        id: id_f,
                        method: method_f,
                        params: params_f,
                        result: result_f,
                        error: error_f,
                    },
                );
            } else {
                return Option::None;
            }
        }
        if s[k1] != 44 {
            return Option::None;
        }
        cur = k1 + 1;
        first = false;
    }
}

// ---------------------------------------------------------------------
// Inversion lemmas: what the scanners do on text the encoder produced.
// ---------------------------------------------------------------------

/// A byte that stands for itself inside a JSON string.
pub open spec fn is_plain_byte(b: u8) -> bool {
    b >= 32 && b != 34 && b != 92
}

/// One byte of an embedded window equals the matching byte of the
/// text that stands there.
pub proof fn lemma_byte_at(s: Seq<u8>, i: int, t: Seq<u8>, x: int)
    requires
        0 <= i,
        i + t.len() <= s.len(),
        s.subrange(i, i + t.len() as int) == t,
        0 <= x < t.len(),
    ensures
        s[i + x] == t[x],
{
    assert(s.subrange(i, i + t.len() as int)[x] == s[i + x]);
}

/// A window within a window: the inner bytes are the matching part of
/// the text that stands there.
pub proof fn lemma_sub_window(s: Seq<u8>, i: int, t: Seq<u8>, x: int, y: int)
    requires
        0 <= i,
        i + t.len() <= s.len(),
        s.subrange(i, i + t.len() as int) == t,
        0 <= x <= y <= t.len(),
    ensures
        s.subrange(i + x, i + y) == t.subrange(x, y),
{
    assert(s.subrange(i + x, i + y) =~= t.subrange(x, y)) by {
        assert forall|k: int| 0 <= k < y - x implies s.subrange(i + x, i + y)[k] == t.subrange(
            x,
            y,
        )[k] by {
            lemma_byte_at(s, i, t, x + k);
        }
    }
}

/// A window holding a concatenation splits into windows holding the
/// parts.
pub proof fn lemma_concat_split(s: Seq<u8>, i: int, u: Seq<u8>, v: Seq<u8>)
    requires
        0 <= i,
        i + u.len() + v.len() <= s.len(),
        s.subrange(i, i + u.len() + v.len()) == u + v,
    ensures
        s.subrange(i, i + u.len() as int) == u,
        s.subrange(i + u.len() as int, i + u.len() + v.len()) == v,
{
    assert(s.subrange(i, i + u.len() as int) =~= u) by {
        assert forall|k: int| 0 <= k < u.len() implies s.subrange(i, i + u.len() as int)[k]
            == u[k] by {
            lemma_byte_at(s, i, u + v, k);
            assert((u + v)[k] == u[k]);
        }
    }
    assert(s.subrange(i + u.len() as int, i + u.len() + v.len()) =~= v) by {
        assert forall|k: int| 0 <= k < v.len() implies s.subrange(
            i + u.len() as int,
            i + u.len() + v.len(),
        )[k] == v[k] by {
            lemma_byte_at(s, i, u + v, u.len() + k);
            assert((u + v)[u.len() + k] == v[k]);
        }
    }
}

/// Escaping changes nothing in a string of plain bytes.
pub proof fn lemma_esc_plain(m: Seq<u8>)
    requires
        forall|k: int| 0 <= k < m.len() ==> is_plain_byte(#[trigger] m[k]),
    ensures
        esc_seq(m) == m,
    decreases m.len(),
{
    if m.len() > 0 {
        lemma_esc_plain(m.drop_last());
        assert(is_plain_byte(m.last()));
        assert(esc_byte(m.last()) == seq![m.last()]);
        assert(m.drop_last() + seq![m.last()] =~= m);
    }
}

/// The escaped form starts with the escape of the first byte.
pub proof fn lemma_esc_seq_first(m: Seq<u8>)
    requires
        m.len() > 0,
    ensures
        esc_seq(m) == esc_byte(m[0]) + esc_seq(m.drop_first()),
    decreases m.len(),
{
    if m.len() == 1 {
        assert(m.drop_last() =~= Seq::<u8>::empty());
        assert(m.drop_first() =~= Seq::<u8>::empty());
        assert(esc_seq(m) =~= esc_byte(m[0]) + esc_seq(m.drop_first()));
    } else {
        let h = m.drop_last();
        lemma_esc_seq_first(h);
        assert(h.drop_first() =~= m.drop_first().drop_last());
        assert(m.drop_first().last() == m.last());
        assert(esc_seq(m) == esc_seq(h) + esc_byte(m.last()));
        assert(esc_seq(m.drop_first()) == esc_seq(m.drop_first().drop_last()) + esc_byte(
            m.drop_first().last(),
        ));
        assert(esc_byte(m[0]) + esc_seq(m.drop_first()) =~= esc_byte(m[0]) + (esc_seq(h.drop_first())
            + esc_byte(m.last())));
        assert(esc_byte(m[0]) + (esc_seq(h.drop_first()) + esc_byte(m.last())) =~= (esc_byte(m[0])
            + esc_seq(h.drop_first())) + esc_byte(m.last()));
    }
}

/// Scanning the escaped form of `m`, closed by a quote, decodes `m`
/// exactly and stops just past the quote.
pub proof fn lemma_scan_string_embedded(s: Seq<u8>, i: int, end: int, m: Seq<u8>, acc: Seq<u8>)
    requires
        0 <= i,
        i + esc_seq(m).len() + 1 <= end <= s.len(),
        s.subrange(i, i + esc_seq(m).len()) == esc_seq(m),
        s[i + esc_seq(m).len()] == 34,
    ensures
        scan_string(s, i, end, acc) == (StrScan::Done {
            content: acc + m,
            next: i + esc_seq(m).len() + 1,
        }),
    decreases m.len(),
{
    if m.len() == 0 {
        assert(acc + m =~= acc);
    } else {
        let b = m[0];
        let rest = m.drop_first();
        lemma_esc_seq_first(m);
        let eb = esc_byte(b);
        let k = eb.len() as int;
        let n = esc_seq(m).len() as int;
        lemma_byte_at(s, i, esc_seq(m), 0);
        if k >= 2 {
            lemma_byte_at(s, i, esc_seq(m), 1);
        }
        if k >= 6 {
            lemma_byte_at(s, i, esc_seq(m), 2);
            lemma_byte_at(s, i, esc_seq(m), 3);
            lemma_byte_at(s, i, esc_seq(m), 4);
            lemma_byte_at(s, i, esc_seq(m), 5);
        }
        assert forall|x: int| 0 <= x < k implies esc_seq(m)[x] == eb[x] by {
            assert((esc_byte(b) + esc_seq(rest))[x] == eb[x]);
        }
        assert(s.subrange(i + k, i + k + esc_seq(rest).len()) =~= esc_seq(rest)) by {
            assert forall|x: int| 0 <= x < esc_seq(rest).len() implies s[i + k + x] == esc_seq(
                rest,
            )[x] by {
                assert(s.subrange(i, i + esc_seq(m).len())[k + x] == s[i + k + x]);
                assert((esc_byte(b) + esc_seq(rest))[k + x] == esc_seq(rest)[x]);
            }
        }
        lemma_scan_string_embedded(s, i + k, end, rest, acc.push(b));
        assert(acc.push(b) + rest =~= acc + m);
        if b == 34 {
            assert(s[i] == 92 && s[i + 1] == 34);
        } else if b == 92 {
            assert(s[i] == 92 && s[i + 1] == 92);
        } else if b == 10 {
            assert(s[i] == 92 && s[i + 1] == 110);
        } else if b == 13 {
            assert(s[i] == 92 && s[i + 1] == 114);
        } else if b == 9 {
            assert(s[i] == 92 && s[i + 1] == 116);
        } else if b < 32 {
            assert(s[i] == 92 && s[i + 1] == 117 && s[i + 2] == 48 && s[i + 3] == 48);
            assert(s[i + 4] == hexd((b / 16) as nat) && s[i + 5] == hexd((b % 16) as nat));
            assert(is_hex(s[i + 4]) && hex_val(s[i + 4]) == (b / 16) as nat);
            assert(is_hex(s[i + 5]) && hex_val(s[i + 5]) == (b % 16) as nat);
            assert(hex_val(s[i + 2]) * 4096 + hex_val(s[i + 3]) * 256 + hex_val(s[i + 4]) * 16
                + hex_val(s[i + 5]) == b);
        } else {
            assert(s[i] == b);
        }
    }
}

/// The first run of atom bytes ends exactly where the atom bytes end.
pub proof fn lemma_atom_end_at(s: Seq<u8>, i: int, e: int, end: int)
    requires
        0 <= i <= e <= end <= s.len(),
        forall|k: int| i <= k < e ==> is_atom_byte(#[trigger] s[k]),
        e == end || !is_atom_byte(s[e]),
    ensures
        atom_end(s, i, end) == e,
    decreases e - i,
{
    if i < e {
        lemma_atom_end_at(s, i + 1, e, end);
    }
}

/// Everything before the end of the atom run is an atom byte.
pub proof fn lemma_atom_end_all(s: Seq<u8>, i: int, end: int)
    requires
        0 <= i,
    ensures
        forall|k: int| i <= k < atom_end(s, i, end) ==> is_atom_byte(#[trigger] s[k]),
    decreases end - i,
{
    if i < end && i < s.len() && is_atom_byte(s[i]) {
        lemma_atom_end_all(s, i + 1, end);
    }
}

/// The first run of digits ends exactly where the digits end.
pub proof fn lemma_digit_end_at(s: Seq<u8>, i: int, e: int, end: int)
    requires
        0 <= i <= e <= end <= s.len(),
        forall|k: int| i <= k < e ==> is_digit(#[trigger] s[k]),
        e == end || !is_digit(s[e]),
    ensures
        digit_end(s, i, end) == e,
    decreases e - i,
{
    if i < e {
        lemma_digit_end_at(s, i + 1, e, end);
    }
}

/// Skipping a string goes the same way wherever the string stands.
proof fn lemma_sst_shift(t: Seq<u8>, s: Seq<u8>, off: int, j: int, end: int, e: int)
    requires
        0 <= j <= t.len(),
        0 <= off,
        off + t.len() <= end <= s.len(),
        s.subrange(off, off + t.len() as int) == t,
        skip_string_tail(t, j, t.len() as int) == Option::Some(e),
    ensures
        skip_string_tail(s, off + j, end) == Option::Some(off + e),
    decreases t.len() - j,
{
    assert(s[off + j] == t[j]) by {
        assert(s.subrange(off, off + t.len() as int)[j] == s[off + j]);
    }
    if t[j] == 34 {
    } else if t[j] == 92 {
        lemma_sst_shift(t, s, off, j + 2, end, e);
    } else {
        lemma_sst_shift(t, s, off, j + 1, end, e);
    }
}

/// Skipping a bracketed value goes the same way wherever it stands.
proof fn lemma_bracket_shift(
    t: Seq<u8>,
    s: Seq<u8>,
    off: int,
    j: int,
    end: int,
    depth: nat,
    in_str: bool,
    esc: bool,
    e: int,
)
    requires
        0 <= j <= t.len(),
        0 <= off,
        off + t.len() <= end <= s.len(),
        s.subrange(off, off + t.len() as int) == t,
        skip_bracket(t, j, t.len() as int, depth, in_str, esc) == Option::Some(e),
    ensures
        skip_bracket(s, off + j, end, depth, in_str, esc) == Option::Some(off + e),
    decreases t.len() - j,
{
    assert(s[off + j] == t[j]) by {
        assert(s.subrange(off, off + t.len() as int)[j] == s[off + j]);
    }
    let b = t[j];
    if in_str {
        if esc {
            lemma_bracket_shift(t, s, off, j + 1, end, depth, true, false, e);
        } else if b == 92 {
            lemma_bracket_shift(t, s, off, j + 1, end, depth, true, true, e);
        } else if b == 34 {
            lemma_bracket_shift(t, s, off, j + 1, end, depth, false, false, e);
        } else {
            lemma_bracket_shift(t, s, off, j + 1, end, depth, true, false, e);
        }
    } else {
        if b == 34 {
            lemma_bracket_shift(t, s, off, j + 1, end, depth, true, false, e);
        } else if b == 123 || b == 91 {
            lemma_bracket_shift(t, s, off, j + 1, end, (depth + 1) as nat, false, false, e);
        } else if b == 125 || b == 93 {
            if depth == 1 {
            } else {
                lemma_bracket_shift(t, s, off, j + 1, end, (depth - 1) as nat, false, false, e);
            }
        } else {
            lemma_bracket_shift(t, s, off, j + 1, end, depth, false, false, e);
        }
    }
}

/// A complete value text embedded in a larger sequence, followed by a
/// comma or closing brace, is skipped in one piece.
pub proof fn lemma_skip_val_embedded(s: Seq<u8>, i: int, end: int, t: Seq<u8>)
    requires
        0 <= i,
        i + t.len() < end <= s.len(),
        s.subrange(i, i + t.len() as int) == t,
        is_value_text(t),
        s[i + t.len()] == 44 || s[i + t.len()] == 125,
    ensures
        skip_val(s, i, end) == Option::Some(i + t.len()),
{
    assert(t.len() > 0);
    assert(s[i] == t[0]) by {
        assert(s.subrange(i, i + t.len() as int)[0] == s[i]);
    }
    let b = t[0];
    if b == 34 {
        lemma_sst_shift(t, s, i, 1, end, t.len() as int);
    } else if b == 123 || b == 91 {
        lemma_bracket_shift(t, s, i, 1, end, 1, false, false, t.len() as int);
    } else {
        assert(is_atom_byte(b));
        assert(atom_end(t, 1, t.len() as int) == t.len());
        lemma_atom_end_all(t, 1, t.len() as int);
        assert forall|k: int| i <= k < i + t.len() implies is_atom_byte(#[trigger] s[k]) by {
            assert(s.subrange(i, i + t.len() as int)[k - i] == s[k]);
            if k > i {
                assert(is_atom_byte(t[k - i]));
            }
        }
        assert(!is_atom_byte(s[i + t.len()]));
        lemma_atom_end_at(s, i + 1, i + t.len() as int, end);
    }
}

/// The decimal spelling of an integer in range, followed by anything
/// but a digit, parses back to the integer.
pub proof fn lemma_scan_int_embedded(s: Seq<u8>, i: int, end: int, v: int)
    requires
        -0x8000_0000_0000_0000 <= v <= 0x7fff_ffff_ffff_ffff,
        0 <= i,
        i + int_dec_seq(v).len() < end <= s.len(),
        s.subrange(i, i + int_dec_seq(v).len() as int) == int_dec_seq(v),
        !is_digit(s[i + int_dec_seq(v).len()]),
    ensures
        scan_int(s, i, end) == (IntScan::Done { value: v, next: i + int_dec_seq(v).len() }),
{
    let t = int_dec_seq(v);
    if v < 0 {
        let mag = (-v) as nat;
        crate::bytes::lemma_dec_seq_val(mag);
        assert(t == seq![45u8] + dec_seq(mag));
        lemma_byte_at(s, i, t, 0);
        assert(s[i] == 45);
        let d0 = i + 1;
        let dl = dec_seq(mag).len() as int;
        assert forall|k: int| d0 <= k < d0 + dl implies is_digit(#[trigger] s[k]) by {
            lemma_byte_at(s, i, t, k - i);
            assert(t[k - i] == dec_seq(mag)[k - d0]);
        }
        lemma_digit_end_at(s, d0, d0 + dl, end);
        assert(s.subrange(d0, d0 + dl) =~= dec_seq(mag)) by {
            assert forall|x: int| 0 <= x < dl implies s.subrange(d0, d0 + dl)[x] == dec_seq(mag)[x]
                by {
                lemma_byte_at(s, i, t, 1 + x);
                assert(t[1 + x] == dec_seq(mag)[x]);
            }
        }
        crate::bytes::lemma_win_val_eq(s, d0, d0 + dl, dec_seq(mag));
    } else {
        let mag = v as nat;
        crate::bytes::lemma_dec_seq_val(mag);
        assert(t == dec_seq(mag));
        lemma_byte_at(s, i, t, 0);
        assert(is_digit(s[i]));
        assert(s[i] != 45);
        let dl = dec_seq(mag).len() as int;
        assert forall|k: int| i <= k < i + dl implies is_digit(#[trigger] s[k]) by {
            lemma_byte_at(s, i, t, k - i);
        }
        lemma_digit_end_at(s, i, i + dl, end);
        assert(s.subrange(i, i + dl) =~= dec_seq(mag)) by {
            assert forall|x: int| 0 <= x < dl implies s.subrange(i, i + dl)[x] == dec_seq(mag)[x]
                by {
                lemma_byte_at(s, i, t, x);
            }
        }
        crate::bytes::lemma_win_val_eq(s, i, i + dl, dec_seq(mag));
    }
}

} // verus!
