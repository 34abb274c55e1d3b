//! The frame codec: length-prefixed framing around one payload.
//!
//! A frame is a block of header lines, ended by a blank line, followed
//! by exactly as many payload bytes as the `Content-Length` header
//! announced.  Header names are case-insensitive; unknown headers are
//! tolerated and ignored; a bounded number of leading blank lines is
//! skipped.  The decoder works over whatever bytes have arrived so far
//! and reports when it needs more.

use vstd::prelude::*;
use crate::bytes::{dec_seq, int_dec_seq, is_digit, is_line_ws, push_bytes, to_lower, win_val};
use crate::json::{esc_seq, parse_payload, parse_payload_ex, quoted, skip_ws};
use crate::message::{Message, MessageModel, OutcomeModel, Payload, PayloadModel, ResponseOutcome};

verus! {

/// Why a byte stream failed to yield a frame.
#[derive(Clone, Copy, PartialEq, Eq, Structural, Debug)]
pub enum FramingError {
    /// More consecutive blank lines before the headers than the
    /// tolerance allows.
    BlankLineLimit,
    /// The header block ended without a `Content-Length` header.
    MissingLength,
    /// A header line without a colon, a repeated length header, or a
    /// length that is not a plain decimal number.
    MalformedHeader,
    /// The stream ended before the current frame was complete.
    UnexpectedEof,
    /// The payload was not a single well-formed envelope object.
    InvalidPayload,
}

/// What the decoder found at a given position of the byte stream.
pub enum DecodeOutcome {
    /// A complete frame: its parsed payload and the index just past it.
    Frame(Payload, usize),
    /// No complete frame yet; more bytes must arrive first.
    NeedMore,
    /// The stream is unrecoverably malformed at this position.
    Fail(FramingError),
}

/// Ghost counterpart of [`DecodeOutcome`].
pub ghost enum DecodeSpec {
    Frame(PayloadModel, int),
    NeedMore,
    Fail(FramingError),
}

/// First index at or after `i` holding a line feed, if any.
pub open spec fn find_nl(s: Seq<u8>, i: int) -> Option<int>
    decreases s.len() - i,
{
    if i < 0 || i >= s.len() {
        Option::None
    } else if s[i] == 10 {
        Option::Some(i)
    } else {
        find_nl(s, i + 1)
    }
}

/// Index before which the trailing whitespace of `[lo, hi)` starts.
pub open spec fn ws_back(s: Seq<u8>, lo: int, hi: int) -> int
    decreases hi - lo,
{
    if lo < hi && 0 <= hi - 1 < s.len() && is_line_ws(s[hi - 1]) {
        ws_back(s, lo, hi - 1)
    } else {
        hi
    }
}

/// First index in `[i, end)` holding a colon, if any.
pub open spec fn find_colon(s: Seq<u8>, i: int, end: int) -> Option<int>
    decreases end - i,
{
    if i >= end || i < 0 || i >= s.len() {
        Option::None
    } else if s[i] == 58 {
        Option::Some(i)
    } else {
        find_colon(s, i + 1, end)
    }
}

/// The lower-case name of the length header.
pub open spec fn cl_name() -> Seq<u8> {
    seq![99u8, 111, 110, 116, 101, 110, 116, 45, 108, 101, 110, 103, 116, 104]
}

/// The window `[lo, hi)` spells the length header's name, compared
/// case-insensitively.
pub open spec fn is_cl_name(s: Seq<u8>, lo: int, hi: int) -> bool {
    &&& 0 <= lo
    &&& hi <= s.len()
    &&& hi - lo == 14
    &&& forall|k: int| 0 <= k < 14 ==> to_lower(s[lo + k]) == cl_name()[k]
}

/// Every byte of the window `[lo, hi)` is a decimal digit.
pub open spec fn digits_window(s: Seq<u8>, lo: int, hi: int) -> bool {
    forall|k: int| lo <= k < hi ==> is_digit(#[trigger] s[k])
}

/// How many consecutive leading blank lines the decoder tolerates.
pub const BLANK_LINE_LIMIT: usize = 100;

/// Walks the header lines of a frame starting at `i`.  `blanks` counts
/// the blank lines seen so far before any header, `cl` the declared
/// length if one was seen, and `seen` whether any header line has been
/// read; a blank line then ends the block and the payload follows.
pub open spec fn scan_headers(s: Seq<u8>, i: int, blanks: nat, cl: Option<nat>, seen: bool) -> FrameScan
    decreases s.len() - i,
{
    match find_nl(s, i) {
        Option::None => FrameScan::NeedMore,
        Option::Some(nl) => {
            let lo = skip_ws(s, i, nl);
            let hi = ws_back(s, lo, nl);
            if lo >= hi {
                // Blank line.
                if seen {
                    match cl {
                        Option::None => FrameScan::Fail(FramingError::MissingLength),
                        Option::Some(n) => if nl + 1 + n <= s.len() {
                            FrameScan::Done { start: nl + 1, len: n }
                        } else {
                            FrameScan::NeedMore
                        },
                    }
                } else if blanks >= BLANK_LINE_LIMIT as nat {
                    FrameScan::Fail(FramingError::BlankLineLimit)
                } else if nl + 1 > i && nl < s.len() {
                    scan_headers(s, nl + 1, blanks + 1, cl, false)
                } else {
                    FrameScan::NeedMore
                }
            } else {
                match find_colon(s, lo, hi) {
                    Option::None => FrameScan::Fail(FramingError::MalformedHeader),
                    Option::Some(c) => {
                        let nhi = ws_back(s, lo, c);
                        if is_cl_name(s, lo, nhi) {
                            if cl is Some {
                                FrameScan::Fail(FramingError::MalformedHeader)
                            } else {
                                let vlo = skip_ws(s, c + 1, hi);
                                if vlo < hi && digits_window(s, vlo, hi) && win_val(s, vlo, hi)
                                    <= usize::MAX as nat && nl + 1 > i && nl < s.len() {
                                    scan_headers(
                                        s,
                                        nl + 1,
                                        blanks,
                                        Option::Some(win_val(s, vlo, hi)),
                                        true,
                                    )
                                } else {
                                    FrameScan::Fail(FramingError::MalformedHeader)
                                }
                            }
                        } else if nl + 1 > i && nl < s.len() {
                            scan_headers(s, nl + 1, blanks, cl, true)
                        } else {
                            FrameScan::NeedMore
                        }
                    },
                }
            }
        },
    }
}

/// Result of walking a frame's header block.
pub ghost enum FrameScan {
    NeedMore,
    Fail(FramingError),
    Done { start: int, len: nat },
}

/// The full decoding relation: headers, payload completeness, payload
/// parse.  With `eof` set, an incomplete frame is a framing failure
/// rather than a request for more bytes.
pub open spec fn decode_spec(s: Seq<u8>, i: int, eof: bool) -> DecodeSpec {
    let raw = match scan_headers(s, i, 0, Option::None, false) {
        FrameScan::NeedMore => DecodeSpec::NeedMore,
        FrameScan::Fail(e) => DecodeSpec::Fail(e),
        FrameScan::Done { start, len } => match parse_payload(s, start, start + len) {
            Option::None => DecodeSpec::Fail(FramingError::InvalidPayload),
            Option::Some(p) => DecodeSpec::Frame(p, start + len),
        },
    };
    if raw is NeedMore && eof {
        DecodeSpec::Fail(FramingError::UnexpectedEof)
    } else {
        raw
    }
}

/// Finds the next line feed at or after `i`.
fn find_nl_ex(s: &[u8], i: usize) -> (r: Option<usize>)
    requires
        i <= s@.len(),
    ensures
        match r {
            Option::Some(n) => i <= n < s@.len() && find_nl(s@, i as int) == Option::Some(n as int),
            Option::None => find_nl(s@, i as int) is None,
        },
{
    let mut j = i;
    while j < s.len() && s[j] != 10
        invariant
            i <= j <= s@.len(),
            find_nl(s@, i as int) == find_nl(s@, j as int),
        decreases s@.len() - j,
    {
        j = j + 1;
    }
    if j < s.len() {
        Option::Some(j)
    } else {
        Option::None
    }
}

/// Steps back over trailing line whitespace.
fn ws_back_ex(s: &[u8], lo: usize, hi: usize) -> (r: usize)
    requires
        lo <= hi <= s@.len(),
    ensures
        lo <= r <= hi,
        r == ws_back(s@, lo as int, hi as int),
{
    let mut j = hi;
    while j > lo && (s[j - 1] == 32 || s[j - 1] == 9 || s[j - 1] == 13)
        invariant
            lo <= j <= hi <= s@.len(),
            ws_back(s@, lo as int, hi as int) == ws_back(s@, lo as int, j as int),
        decreases j,
    {
        j = j - 1;
    }
    j
}

/// Finds the first colon in `[i, end)`.
fn find_colon_ex(s: &[u8], i: usize, end: usize) -> (r: Option<usize>)
    requires
        i <= end <= s@.len(),
    ensures
        match r {
            Option::Some(c) => i <= c < end && find_colon(s@, i as int, end as int) == Option::Some(
                c as int,
            ),
            Option::None => find_colon(s@, i as int, end as int) is None,
        },
{
    let mut j = i;
    while j < end && s[j] != 58
        invariant
            i <= j <= end <= s@.len(),
            find_colon(s@, i as int, end as int) == find_colon(s@, j as int, end as int),
        decreases end - j,
    {
        j = j + 1;
    }
    if j < end {
        Option::Some(j)
    } else {
        Option::None
    }
}

fn cl_name_vec() -> (v: Vec<u8>)
    ensures
        v@ == cl_name(),
{
    let mut v: Vec<u8> = Vec::new();
    v.push(99);
    v.push(111);
    v.push(110);
    v.push(116);
    v.push(101);
    v.push(110);
    v.push(116);
    v.push(45);
    v.push(108);
    v.push(101);
    v.push(110);
    v.push(103);
    v.push(116);
    v.push(104);
    proof {
        assert(v@ =~= cl_name());
    }
    v
}

/// Case-insensitive comparison of the window `[lo, hi)` with the
/// length header's name.
fn is_cl_name_ex(s: &[u8], lo: usize, hi: usize) -> (r: bool)
    requires
        lo <= hi <= s@.len(),
    ensures
        r == is_cl_name(s@, lo as int, hi as int),
{
    let name = cl_name_vec();
    if hi - lo != 14 {
        return false;
    }
    let mut k: usize = 0;
    while k < 14
        invariant
            k <= 14,
            lo + 14 == hi <= s@.len(),
            name@ == cl_name(),
            forall|m: int| 0 <= m < k ==> to_lower(s@[lo + m]) == cl_name()[m],
        decreases 14 - k,
    {
        let b = crate::bytes::lower_byte(s[lo + k]);
        if b != name[k] {
            return false;
        }
        k = k + 1;
    }
    true
}

/// Reads the digit window `[lo, hi)` as a length that must fit the
/// machine's word, as any real payload length does.
fn parse_length_window(s: &[u8], lo: usize, hi: usize) -> (r: Option<usize>)
    requires
        lo <= hi <= s@.len(),
        digits_window(s@, lo as int, hi as int),
        lo < hi,
    ensures
        match r {
            Option::Some(v) => v as nat == win_val(s@, lo as int, hi as int),
            Option::None => win_val(s@, lo as int, hi as int) > usize::MAX as nat,
        },
{
    let mut acc: u64 = 0;
    let mut too_big = false;
    let mut j = lo;
    while j < hi
        invariant
            lo <= j <= hi <= s@.len(),
            digits_window(s@, lo as int, hi as int),
            !too_big ==> acc as nat == win_val(s@, lo as int, j as int),
            too_big ==> win_val(s@, lo as int, j as int) > u64::MAX,
        decreases hi - j,
    {
        let d = s[j] - 48;
        if too_big || acc > 0xffff_ffff_ffff_ffffu64 / 10 || (acc == 0xffff_ffff_ffff_ffffu64 / 10
            && d > 5) {
            proof {
                if !too_big {
                    assert(win_val(s@, lo as int, j as int + 1) == acc * 10 + d);
                }
                crate::bytes::lemma_win_val_mono(s@, lo as int, j as int, j as int + 1);
            }
            too_big = true;
        } else {
            acc = acc * 10 + (d as u64);
        }
        j = j + 1;
    }
    if too_big {
        return Option::None;
    }
    if acc > usize::MAX as u64 {
        return Option::None;
    }
    Option::Some(acc as usize)
}

/// Decodes one frame from the bytes that have arrived so far.
///
/// `buf` holds the inbound stream, `pos` the index where the next
/// frame starts, and `eof` whether the stream has ended.  A complete
/// frame yields its payload and the index just past it; a partial one
/// asks for more bytes, unless the stream has ended, which makes an
/// incomplete frame a framing failure.
#[verifier::loop_isolation(false)]
pub fn decode(buf: &[u8], pos: usize, eof: bool) -> (r: DecodeOutcome)
    requires
        pos <= buf@.len(),
    ensures
        match r {
            DecodeOutcome::Frame(p, n) => pos < n <= buf@.len() && decode_spec(
                buf@,
                pos as int,
                eof,
            ) == DecodeSpec::Frame(p@, n as int),
            DecodeOutcome::NeedMore => decode_spec(buf@, pos as int, eof) is NeedMore,
            DecodeOutcome::Fail(e) => decode_spec(buf@, pos as int, eof) == DecodeSpec::Fail(e),
        },
{
    let blen = buf.len();
    assert(buf@.len() == blen);
    let mut cur = pos;
    let mut blanks: usize = 0;
    let mut cl: Option<usize> = Option::None;
    let mut seen = false;
    loop
        invariant
            pos <= cur <= buf@.len(),
            scan_headers(buf@, pos as int, 0, Option::None, false) == scan_headers(
                buf@,
                cur as int,
                blanks as nat,
                match cl {
                    Option::None => Option::<nat>::None,
                    Option::Some(n) => Option::<nat>::Some(n as nat),
                },
                seen,
            ),
        decreases buf@.len() - cur,
    {
        let nl = match find_nl_ex(buf, cur) {
            Option::None => {
                if eof {
                    return DecodeOutcome::Fail(FramingError::UnexpectedEof);
                }
                return DecodeOutcome::NeedMore;
            },
            Option::Some(n) => n,
        };
        let lo = crate::json::ws_end(buf, cur, nl);
        let hi = ws_back_ex(buf, lo, nl);
        if lo >= hi {
            // Blank line.
            if seen {
                match cl {
                    Option::None => {
                        return DecodeOutcome::Fail(FramingError::MissingLength);
                    },
                    Option::Some(n) => {
                        let start = nl + 1;
                        if n <= buf.len() - start {
                            // The payload is complete: parse it.
                            match parse_payload_ex(buf, start, start + n) {
                                Option::None => {
                                    return DecodeOutcome::Fail(FramingError::InvalidPayload);
                                },
                                Option::Some(p) => {
                                    return DecodeOutcome::Frame(p, start + n);
                                },
                            }
                        } else {
                            if eof {
                                return DecodeOutcome::Fail(FramingError::UnexpectedEof);
                            }
                            return DecodeOutcome::NeedMore;
                        }
                    },
                }
            } else if blanks >= BLANK_LINE_LIMIT {
                return DecodeOutcome::Fail(FramingError::BlankLineLimit);
            } else {
                blanks = blanks + 1;
                cur = nl + 1;
                continue ;
            }
        }
        match find_colon_ex(buf, lo, hi) {
            Option::None => {
                return DecodeOutcome::Fail(FramingError::MalformedHeader);
            },
            Option::Some(c) => {
                let nhi = ws_back_ex(buf, lo, c);
                if is_cl_name_ex(buf, lo, nhi) {
                    if cl.is_some() {
                        return DecodeOutcome::Fail(FramingError::MalformedHeader);
                    }
                    let vlo = crate::json::ws_end(buf, c + 1, hi);
                    if vlo >= hi {
                        return DecodeOutcome::Fail(FramingError::MalformedHeader);
                    }
                    if !digits_window_ex(buf, vlo, hi) {
                        return DecodeOutcome::Fail(FramingError::MalformedHeader);
                    }
                    match parse_length_window(buf, vlo, hi) {
                        Option::None => {
                            return DecodeOutcome::Fail(FramingError::MalformedHeader);
                        },
                        Option::Some(v) => {
                            cl = Option::Some(v);
                            seen = true;
                            cur = nl + 1;
                        },
                    }
                } else {
                    seen = true;
                    cur = nl + 1;
                }
            },
        }
    }
}

/// Checks that every byte of `[lo, hi)` is a decimal digit.
fn digits_window_ex(s: &[u8], lo: usize, hi: usize) -> (r: bool)
    requires
        lo <= hi <= s@.len(),
    ensures
        r == digits_window(s@, lo as int, hi as int),
{
    let mut j = lo;
    while j < hi
        invariant
            lo <= j <= hi <= s@.len(),
            forall|k: int| lo <= k < j ==> is_digit(#[trigger] s@[k]),
        decreases hi - j,
    {
        if s[j] < 48 || s[j] > 57 {
            return false;
        }
        j = j + 1;
    }
    true
}

// The fixed fragments of the serialised envelope.
/// `{"jsonrpc":"2.0"`
pub open spec fn l_obj_head() -> Seq<u8> {
    seq![123u8, 34, 106, 115, 111, 110, 114, 112, 99, 34, 58, 34, 50, 46, 48, 34]
}

/// `,"id":`
pub open spec fn l_id() -> Seq<u8> {
    seq![44u8, 34, 105, 100, 34, 58]
}

/// `,"method":`
pub open spec fn l_method() -> Seq<u8> {
    seq![44u8, 34, 109, 101, 116, 104, 111, 100, 34, 58]
}

/// `,"params":`
pub open spec fn l_params() -> Seq<u8> {
    seq![44u8, 34, 112, 97, 114, 97, 109, 115, 34, 58]
}

/// `,"result":`
pub open spec fn l_result() -> Seq<u8> {
    seq![44u8, 34, 114, 101, 115, 117, 108, 116, 34, 58]
}

/// `,"error":{"code":`
pub open spec fn l_error_code() -> Seq<u8> {
    seq![44u8, 34, 101, 114, 114, 111, 114, 34, 58, 123, 34, 99, 111, 100, 101, 34, 58]
}

/// `,"message":`
pub open spec fn l_message() -> Seq<u8> {
    seq![44u8, 34, 109, 101, 115, 115, 97, 103, 101, 34, 58]
}

/// `,"data":`
pub open spec fn l_data() -> Seq<u8> {
    seq![44u8, 34, 100, 97, 116, 97, 34, 58]
}

/// `Content-Length: `
pub open spec fn l_header() -> Seq<u8> {
    seq![67u8, 111, 110, 116, 101, 110, 116, 45, 76, 101, 110, 103, 116, 104, 58, 32]
}

/// The optional `,"params":<text>` fragment.
pub open spec fn params_part(p: Option<Seq<u8>>) -> Seq<u8> {
    match p {
        Option::None => Seq::empty(),
        Option::Some(t) => l_params() + t,
    }
}

/// The optional `,"data":<text>` fragment.
pub open spec fn data_part(d: Option<Seq<u8>>) -> Seq<u8> {
    match d {
        Option::None => Seq::empty(),
        Option::Some(t) => l_data() + t,
    }
}

/// The payload text of one message: the envelope object, members in
/// the fixed order the encoder writes them.
pub open spec fn payload_text(m: MessageModel) -> Seq<u8> {
    match m {
        MessageModel::Request { id, method, params } => l_obj_head() + l_id() + int_dec_seq(id)
            + l_method() + quoted(method) + params_part(params) + seq![125u8],
        MessageModel::Notification { method, params } => l_obj_head() + l_method() + quoted(method)
            + params_part(params) + seq![125u8],
        MessageModel::Response { id, outcome } => match outcome {
            OutcomeModel::Success { result } => l_obj_head() + l_id() + int_dec_seq(id) + l_result()
                + result + seq![125u8],
            OutcomeModel::Failure { code, message, data } => l_obj_head() + l_id() + int_dec_seq(id)
                + l_error_code() + int_dec_seq(code) + l_message() + quoted(message) + data_part(
                data,
            ) + seq![125u8, 125],
        },
    }
}

/// A payload wrapped in its frame: the length header, a blank line,
/// then the payload itself.
pub open spec fn frame_bytes(payload: Seq<u8>) -> Seq<u8> {
    l_header() + dec_seq(payload.len()) + seq![13u8, 10, 13, 10] + payload
}

/// The wire form of one message.
pub open spec fn encode_spec(m: MessageModel) -> Seq<u8> {
    frame_bytes(payload_text(m))
}

fn l_obj_head_vec() -> (v: Vec<u8>)
    ensures
        v@ == l_obj_head(),
{
    let mut v: Vec<u8> = Vec::new();
    v.push(123);
    v.push(34);
    v.push(106);
    v.push(115);
    v.push(111);
    v.push(110);
    v.push(114);
    v.push(112);
    v.push(99);
    v.push(34);
    v.push(58);
    v.push(34);
    v.push(50);
    v.push(46);
    v.push(48);
    v.push(34);
    proof {
        assert(v@ =~= l_obj_head());
    }
    v
}

fn l_id_vec() -> (v: Vec<u8>)
    ensures
        v@ == l_id(),
{
    let mut v: Vec<u8> = Vec::new();
    v.push(44);
    v.push(34);
    v.push(105);
    v.push(100);
    v.push(34);
    v.push(58);
    proof {
        assert(v@ =~= l_id());
    }
    v
}

fn l_method_vec() -> (v: Vec<u8>)
    ensures
        v@ == l_method(),
{
    let mut v: Vec<u8> = Vec::new();
    v.push(44);
    v.push(34);
    v.push(109);
    v.push(101);
    v.push(116);
    v.push(104);
    v.push(111);
    v.push(100);
    v.push(34);
    v.push(58);
    proof {
        assert(v@ =~= l_method());
    }
    v
}

fn l_params_vec() -> (v: Vec<u8>)
    ensures
        v@ == l_params(),
{
    let mut v: Vec<u8> = Vec::new();
    v.push(44);
    v.push(34);
    v.push(112);
    v.push(97);
    v.push(114);
    v.push(97);
    v.push(109);
    v.push(115);
    v.push(34);
    v.push(58);
    proof {
        assert(v@ =~= l_params());
    }
    v
}

fn l_result_vec() -> (v: Vec<u8>)
    ensures
        v@ == l_result(),
{
    let mut v: Vec<u8> = Vec::new();
    v.push(44);
    v.push(34);
    v.push(114);
    v.push(101);
    v.push(115);
    v.push(117);
    v.push(108);
    v.push(116);
    v.push(34);
    v.push(58);
    proof {
        assert(v@ =~= l_result());
    }
    v
}

fn l_error_code_vec() -> (v: Vec<u8>)
    ensures
        v@ == l_error_code(),
{
    let mut v: Vec<u8> = Vec::new();
    v.push(44);
    v.push(34);
    v.push(101);
    v.push(114);
    v.push(114);
    v.push(111);
    v.push(114);
    v.push(34);
    v.push(58);
    v.push(123);
    v.push(34);
    v.push(99);
    v.push(111);
    v.push(100);
    v.push(101);
    v.push(34);
    v.push(58);
    proof {
        assert(v@ =~= l_error_code());
    }
    v
}

fn l_message_vec() -> (v: Vec<u8>)
    ensures
        v@ == l_message(),
{
    let mut v: Vec<u8> = Vec::new();
    v.push(44);
    v.push(34);
    v.push(109);
    v.push(101);
    v.push(115);
    v.push(115);
    v.push(97);
    v.push(103);
    v.push(101);
    v.push(34);
    v.push(58);
    proof {
        assert(v@ =~= l_message());
    }
    v
}

fn l_data_vec() -> (v: Vec<u8>)
    ensures
        v@ == l_data(),
{
    let mut v: Vec<u8> = Vec::new();
    v.push(44);
    v.push(34);
    v.push(100);
    v.push(97);
    v.push(116);
    v.push(97);
    v.push(34);
    v.push(58);
    proof {
        assert(v@ =~= l_data());
    }
    v
}

fn l_header_vec() -> (v: Vec<u8>)
    ensures
        v@ == l_header(),
{
    let mut v: Vec<u8> = Vec::new();
    v.push(67);
    v.push(111);
    v.push(110);
    v.push(116);
    v.push(101);
    v.push(110);
    v.push(116);
    v.push(45);
    v.push(76);
    v.push(101);
    v.push(110);
    v.push(103);
    v.push(116);
    v.push(104);
    v.push(58);
    v.push(32);
    proof {
        assert(v@ =~= l_header());
    }
    v
}

/// Appends a quoted, escaped string to `dst`.
fn append_quoted(dst: &mut Vec<u8>, s: &[u8])
    ensures
        final(dst)@ == old(dst)@ + quoted(s@),
{
    dst.push(34);
    crate::json::append_escaped(dst, s);
    dst.push(34);
    proof {
        assert(dst@ =~= old(dst)@ + quoted(s@));
    }
}

/// Serialises one message into its payload text.
pub fn payload_text_ex(m: &Message) -> (r: Vec<u8>)
    ensures
        r@ == payload_text(m@),
{
    let mut out = l_obj_head_vec();
    match m {
        Message::Request { id, method, params } => {
            let idb = crate::bytes::i64_to_dec(*id);
            push_bytes(&mut out, l_id_vec().as_slice());
            push_bytes(&mut out, idb.as_slice());
            push_bytes(&mut out, l_method_vec().as_slice());
            append_quoted(&mut out, method.as_slice());
            match params {
                Option::Some(p) => {
                    push_bytes(&mut out, l_params_vec().as_slice());
                    push_bytes(&mut out, p.as_slice());
                },
                Option::None => {},
            }
            out.push(125);
            proof {
                assert(out@ =~= payload_text(m@));
            }
        },
        Message::Notification { method, params } => {
            push_bytes(&mut out, l_method_vec().as_slice());
            append_quoted(&mut out, method.as_slice());
            match params {
                Option::Some(p) => {
                    push_bytes(&mut out, l_params_vec().as_slice());
                    push_bytes(&mut out, p.as_slice());
                },
                Option::None => {},
            }
            out.push(125);
            proof {
                assert(out@ =~= payload_text(m@));
            }
        },
        Message::Response { id, outcome } => {
            let idb = crate::bytes::i64_to_dec(*id);
            push_bytes(&mut out, l_id_vec().as_slice());
            push_bytes(&mut out, idb.as_slice());
            match outcome {
                ResponseOutcome::Success { result } => {
                    push_bytes(&mut out, l_result_vec().as_slice());
                    push_bytes(&mut out, result.as_slice());
                    out.push(125);
                },
                ResponseOutcome::Failure { code, message, data } => {
                    let cb = crate::bytes::i64_to_dec(*code);
                    push_bytes(&mut out, l_error_code_vec().as_slice());
                    push_bytes(&mut out, cb.as_slice());
                    push_bytes(&mut out, l_message_vec().as_slice());
                    append_quoted(&mut out, message.as_slice());
                    match data {
                        Option::Some(d) => {
                            push_bytes(&mut out, l_data_vec().as_slice());
                            push_bytes(&mut out, d.as_slice());
                        },
                        Option::None => {},
                    }
                    out.push(125);
                    out.push(125);
                },
            }
            proof {
                assert(out@ =~= payload_text(m@));
            }
        },
    }
    out
}

/// Encodes one message into its wire form: the payload text behind a
/// `Content-Length` header that counts exactly its bytes.
pub fn encode(m: &Message) -> (r: Vec<u8>)
    ensures
        r@ == encode_spec(m@),
{
    let payload = payload_text_ex(m);
    let mut out = l_header_vec();
    let len64: u64 = payload.len() as u64;
    let lenb = crate::bytes::u64_to_dec(len64);
    push_bytes(&mut out, lenb.as_slice());
    out.push(13);
    out.push(10);
    out.push(13);
    out.push(10);
    push_bytes(&mut out, payload.as_slice());
    proof {
        assert(out@ =~= encode_spec(m@));
    }
    out
}

// ---------------------------------------------------------------------
// The round trip: decoding what the encoder produced.
// ---------------------------------------------------------------------

/// If nothing before `nl` is a line feed and `nl` holds one, the
/// search finds exactly `nl`.
proof fn lemma_find_nl_at(s: Seq<u8>, i: int, nl: int)
    requires
        0 <= i <= nl < s.len(),
        forall|k: int| i <= k < nl ==> s[k] != 10,
        s[nl] == 10,
    ensures
        find_nl(s, i) == Option::Some(nl),
    decreases nl - i,
{
    if i < nl {
        lemma_find_nl_at(s, i + 1, nl);
    }
}

/// If nothing before `c` is a colon and `c` holds one, the search
/// finds exactly `c`.
proof fn lemma_find_colon_at(s: Seq<u8>, i: int, c: int, end: int)
    requires
        0 <= i <= c < end <= s.len(),
        forall|k: int| i <= k < c ==> s[k] != 58,
        s[c] == 58,
    ensures
        find_colon(s, i, end) == Option::Some(c),
    decreases c - i,
{
    if i < c {
        lemma_find_colon_at(s, i + 1, c, end);
    }
}

/// The length of a frame's header block for a payload of `n` bytes.
pub open spec fn frame_head_len(n: nat) -> int {
    16 + dec_seq(n).len() as int + 4
}

/// Scanning the headers of an encoded frame finds the payload exactly
/// where the encoder put it, with exactly its length.
proof fn lemma_headers_of_frame(s: Seq<u8>, payload: Seq<u8>)
    requires
        s == frame_bytes(payload),
        payload.len() <= usize::MAX,
    ensures
        scan_headers(s, 0, 0, Option::None, false) == (FrameScan::Done {
            start: frame_head_len(payload.len()),
            len: payload.len(),
        }),
        frame_head_len(payload.len()) + payload.len() == s.len(),
{
    let a = l_header();
    let b = dec_seq(payload.len());
    let d = b.len() as int;
    let lf = seq![13u8, 10, 13, 10];
    crate::bytes::lemma_dec_seq_val(payload.len());
    assert(s.len() == 20 + d + payload.len());
    assert forall|k: int| 0 <= k < 16 implies s[k] == a[k] by {
        assert(((a + b) + lf)[k] == a[k]);
        assert(s[k] == ((a + b) + lf)[k]);
    }
    assert forall|k: int| 0 <= k < d implies s[16 + k] == b[k] by {
        assert(((a + b) + lf)[16 + k] == b[k]);
        assert(s[16 + k] == ((a + b) + lf)[16 + k]);
    }
    assert forall|k: int| 0 <= k < 4 implies s[16 + d + k] == lf[k] by {
        assert(((a + b) + lf)[16 + d + k] == lf[k]);
        assert(s[16 + d + k] == ((a + b) + lf)[16 + d + k]);
    }
    assert(s[16 + d] == 13 && s[16 + d + 1] == 10 && s[16 + d + 2] == 13 && s[16 + d + 3] == 10);
    let nl1 = 16 + d + 1;
    // The first line feed.
    assert forall|k: int| 0 <= k < nl1 implies s[k] != 10 by {
        if k < 16 {
            assert(s[k] == a[k]);
        } else if k < 16 + d {
            assert(s[k] == b[k - 16]);
            assert(is_digit(b[k - 16]));
        } else {
            assert(s[k] == 13);
        }
    }
    lemma_find_nl_at(s, 0, nl1);
    // The first line: `Content-Length: <digits>` with a trailing CR.
    assert(skip_ws(s, 0, nl1) == 0);
    assert(ws_back(s, 0, nl1) == ws_back(s, 0, nl1 - 1));
    assert(is_digit(s[16 + d - 1]));
    assert(ws_back(s, 0, nl1 - 1) == 16 + d);
    let hi = 16 + d;
    assert forall|k: int| 0 <= k < 14 implies s[k] != 58 by {
        assert(s[k] == a[k]);
    }
    assert(s[14] == 58);
    lemma_find_colon_at(s, 0, 14, hi);
    assert(ws_back(s, 0, 14) == 14);
    assert(is_cl_name(s, 0, 14)) by {
        assert forall|k: int| 0 <= k < 14 implies to_lower(s[k]) == cl_name()[k] by {
            assert(s[k] == a[k]);
        }
    }
    // The declared length.
    assert(s[15] == 32);
    assert(skip_ws(s, 15, hi) == skip_ws(s, 16, hi));
    if 16 < hi {
        assert(!crate::json::is_json_ws(s[16]));
    }
    assert(skip_ws(s, 16, hi) == 16);
    assert(digits_window(s, 16, hi)) by {
        assert forall|k: int| 16 <= k < hi implies is_digit(#[trigger] s[k]) by {
            assert(s[k] == b[k - 16]);
        }
    }
    assert(s.subrange(16, hi) =~= b);
    crate::bytes::lemma_win_val_eq(s, 16, hi, b);
    assert(win_val(s, 16, hi) == payload.len());
    // The blank line that ends the header block.
    let nl2 = 16 + d + 3;
    assert forall|k: int| nl1 + 1 <= k < nl2 implies s[k] != 10 by {
        assert(s[k] == 13);
    }
    lemma_find_nl_at(s, nl1 + 1, nl2);
    assert(skip_ws(s, nl1 + 1, nl2) == skip_ws(s, nl1 + 2, nl2));
    assert(skip_ws(s, nl1 + 1, nl2) == nl2);
    assert(ws_back(s, nl2, nl2) == nl2);
    assert(scan_headers(s, nl1 + 1, 0, Option::Some(payload.len()), true) == (FrameScan::Done {
        start: nl2 + 1,
        len: payload.len(),
    }));
}

/// Walking the opening of the envelope: the `jsonrpc` member is
/// skipped and the walk continues past the comma that follows it.
#[verifier::rlimit(100)]
proof fn lemma_member_jsonrpc(s: Seq<u8>, o: int, end: int, acc: PayloadModel)
    requires
        0 <= o,
        o + 17 <= end <= s.len(),
        s.subrange(o, o + 16) == l_obj_head(),
        s[o + 16] == 44,
    ensures
        crate::json::scan_members(s, o + 1, end, acc, true) == crate::json::scan_members(
            s,
            o + 17,
            end,
            acc,
            false,
        ),
{
    let a = l_obj_head();
    assert forall|k: int| 0 <= k < 16 implies s[o + k] == a[k] by {
        crate::json::lemma_byte_at(s, o, a, k);
    }
    assert(skip_ws(s, o + 1, end) == o + 1);
    // The member key.
    let key = crate::json::key_jsonrpc();
    assert forall|k: int| 0 <= k < key.len() implies crate::json::is_plain_byte(
        #[trigger] key[k],
    ) by {}
    crate::json::lemma_esc_plain(key);
    assert(s.subrange(o + 2, o + 9) =~= key) by {
        assert forall|k: int| 0 <= k < 7 implies s.subrange(o + 2, o + 9)[k] == key[k] by {
            assert(s[o + 2 + k] == a[2 + k]);
        }
    }
    crate::json::lemma_scan_string_embedded(s, o + 2, end, key, Seq::empty());
    assert(Seq::empty() + key =~= key);
    assert(skip_ws(s, o + 10, end) == o + 10);
    assert(skip_ws(s, o + 11, end) == o + 11);
    // The member value `"2.0"`, skipped as an unknown member's value.
    assert(crate::json::skip_string_tail(s, o + 12, end) == crate::json::skip_string_tail(
        s,
        o + 13,
        end,
    ));
    assert(crate::json::skip_string_tail(s, o + 13, end) == crate::json::skip_string_tail(
        s,
        o + 14,
        end,
    ));
    assert(crate::json::skip_string_tail(s, o + 14, end) == crate::json::skip_string_tail(
        s,
        o + 15,
        end,
    ));
    assert(crate::json::skip_string_tail(s, o + 15, end) == Option::Some(o + 16));
    assert(crate::json::skip_val(s, o + 11, end) == Option::Some(o + 16));
    assert(skip_ws(s, o + 16, end) == o + 16);
}

/// Walking the `id` member: the identifier is recorded and the walk
/// continues past the follower, or ends at the closing brace.
#[verifier::rlimit(100)]
proof fn lemma_member_id(s: Seq<u8>, i: int, end: int, acc: PayloadModel, v: int)
    requires
        acc.id is None,
        -0x8000_0000_0000_0000 <= v <= 0x7fff_ffff_ffff_ffff,
        0 <= i,
        s.subrange(i, i + 5) == l_id().subrange(1, 6),
        s.subrange(i + 5, i + 5 + int_dec_seq(v).len() as int) == int_dec_seq(v),
        i + 5 + int_dec_seq(v).len() < end <= s.len(),
        s[i + 5 + int_dec_seq(v).len()] == 44 || s[i + 5 + int_dec_seq(v).len()] == 125,
    ensures
        ({
            let acc2 = PayloadModel { id: Option::Some(v), ..acc };
            let k1 = i + 5 + int_dec_seq(v).len() as int;
            crate::json::scan_members(s, i, end, acc, false) == if s[k1] == 125 {
                crate::json::ObjScan::Done { value: acc2, next: k1 + 1 }
            } else {
                crate::json::scan_members(s, k1 + 1, end, acc2, false)
            }
        }),
{
    let frag = l_id().subrange(1, 6);
    crate::json::lemma_byte_at(s, i, frag, 0);
    crate::json::lemma_byte_at(s, i, frag, 3);
    crate::json::lemma_byte_at(s, i, frag, 4);
    assert(s[i] == 34 && s[i + 3] == 34 && s[i + 4] == 58);
    assert(skip_ws(s, i, end) == i);
    let key = crate::json::key_id();
    assert forall|k: int| 0 <= k < key.len() implies crate::json::is_plain_byte(
        #[trigger] key[k],
    ) by {}
    crate::json::lemma_esc_plain(key);
    assert(s.subrange(i + 1, i + 3) =~= key) by {
        assert forall|k: int| 0 <= k < 2 implies s.subrange(i + 1, i + 3)[k] == key[k] by {
            crate::json::lemma_byte_at(s, i, frag, 1 + k);
            assert(s[i + 1 + k] == frag[1 + k]);
        }
    }
    crate::json::lemma_scan_string_embedded(s, i + 1, end, key, Seq::empty());
    assert(Seq::empty() + key =~= key);
    assert(skip_ws(s, i + 4, end) == i + 4);
    let t = int_dec_seq(v);
    crate::json::lemma_byte_at(s, i + 5, t, 0);
    if v < 0 {
        assert(t[0] == 45);
    } else {
        crate::bytes::lemma_dec_seq_val(v as nat);
        assert(crate::bytes::is_digit(t[0]));
    }
    assert(!crate::json::is_json_ws(s[i + 5]));
    assert(skip_ws(s, i + 5, end) == i + 5);
    crate::json::lemma_scan_int_embedded(s, i + 5, end, v);
    let k1 = i + 5 + t.len() as int;
    assert(skip_ws(s, k1, end) == k1);
}

/// Walking the `method` member: the decoded method string is recorded
/// and the walk continues past the follower, or ends at the brace.
#[verifier::rlimit(100)]
proof fn lemma_member_method(s: Seq<u8>, i: int, end: int, acc: PayloadModel, mtd: Seq<u8>)
    requires
        acc.method is None,
        0 <= i,
        s.subrange(i, i + 9) == l_method().subrange(1, 10),
        s.subrange(i + 9, i + 9 + quoted(mtd).len() as int) == quoted(mtd),
        i + 9 + quoted(mtd).len() < end <= s.len(),
        s[i + 9 + quoted(mtd).len()] == 44 || s[i + 9 + quoted(mtd).len()] == 125,
    ensures
        ({
            let acc2 = PayloadModel { method: Option::Some(mtd), ..acc };
            let k1 = i + 9 + quoted(mtd).len() as int;
            crate::json::scan_members(s, i, end, acc, false) == if s[k1] == 125 {
                crate::json::ObjScan::Done { value: acc2, next: k1 + 1 }
            } else {
                crate::json::scan_members(s, k1 + 1, end, acc2, false)
            }
        }),
{
    let frag = l_method().subrange(1, 10);
    crate::json::lemma_byte_at(s, i, frag, 0);
    crate::json::lemma_byte_at(s, i, frag, 7);
    crate::json::lemma_byte_at(s, i, frag, 8);
    assert(s[i] == 34 && s[i + 7] == 34 && s[i + 8] == 58);
    assert(skip_ws(s, i, end) == i);
    let key = crate::json::key_method();
    assert forall|k: int| 0 <= k < key.len() implies crate::json::is_plain_byte(
        #[trigger] key[k],
    ) by {}
    crate::json::lemma_esc_plain(key);
    assert(s.subrange(i + 1, i + 7) =~= key) by {
        assert forall|k: int| 0 <= k < 6 implies s.subrange(i + 1, i + 7)[k] == key[k] by {
            crate::json::lemma_byte_at(s, i, frag, 1 + k);
            assert(s[i + 1 + k] == frag[1 + k]);
        }
    }
    crate::json::lemma_scan_string_embedded(s, i + 1, end, key, Seq::empty());
    assert(Seq::empty() + key =~= key);
    assert(skip_ws(s, i + 8, end) == i + 8);
    // The value: a quoted string decoding to the method.
    let q = quoted(mtd);
    crate::json::lemma_byte_at(s, i + 9, q, 0);
    assert(q[0] == 34);
    assert(skip_ws(s, i + 9, end) == i + 9);
    let el = crate::json::esc_seq(mtd).len() as int;
    crate::json::lemma_sub_window(s, i + 9, q, 1, 1 + el);
    assert(q.subrange(1, 1 + el) =~= crate::json::esc_seq(mtd));
    crate::json::lemma_byte_at(s, i + 9, q, 1 + el);
    assert(q[1 + el] == 34);
    crate::json::lemma_scan_string_embedded(s, i + 10, end, mtd, Seq::empty());
    assert(Seq::empty() + mtd =~= mtd);
    let k1 = i + 9 + q.len() as int;
    assert(skip_ws(s, k1, end) == k1);
}

/// Walking the `params` member: the raw value text is captured and
/// the walk continues past the follower, or ends at the brace.
#[verifier::rlimit(100)]
proof fn lemma_member_params(s: Seq<u8>, i: int, end: int, acc: PayloadModel, t: Seq<u8>)
    requires
        acc.params is None,
        0 <= i,
        s.subrange(i, i + 9) == l_params().subrange(1, 10),
        s.subrange(i + 9, i + 9 + t.len() as int) == t,
        crate::json::is_value_text(t),
        i + 9 + t.len() < end <= s.len(),
        s[i + 9 + t.len()] == 44 || s[i + 9 + t.len()] == 125,
    ensures
        ({
            let acc2 = PayloadModel { params: Option::Some(t), ..acc };
            let k1 = i + 9 + t.len() as int;
            crate::json::scan_members(s, i, end, acc, false) == if s[k1] == 125 {
                crate::json::ObjScan::Done { value: acc2, next: k1 + 1 }
            } else {
                crate::json::scan_members(s, k1 + 1, end, acc2, false)
            }
        }),
{
    let frag = l_params().subrange(1, 10);
    crate::json::lemma_byte_at(s, i, frag, 0);
    crate::json::lemma_byte_at(s, i, frag, 7);
    crate::json::lemma_byte_at(s, i, frag, 8);
    assert(s[i] == 34 && s[i + 7] == 34 && s[i + 8] == 58);
    assert(skip_ws(s, i, end) == i);
    let key = crate::json::key_params();
    assert forall|k: int| 0 <= k < key.len() implies crate::json::is_plain_byte(
        #[trigger] key[k],
    ) by {}
    crate::json::lemma_esc_plain(key);
    assert(s.subrange(i + 1, i + 7) =~= key) by {
        assert forall|k: int| 0 <= k < 6 implies s.subrange(i + 1, i + 7)[k] == key[k] by {
            crate::json::lemma_byte_at(s, i, frag, 1 + k);
            assert(s[i + 1 + k] == frag[1 + k]);
        }
    }
    crate::json::lemma_scan_string_embedded(s, i + 1, end, key, Seq::empty());
    assert(Seq::empty() + key =~= key);
    assert(skip_ws(s, i + 8, end) == i + 8);
    crate::json::lemma_byte_at(s, i + 9, t, 0);
    assert(!crate::json::is_json_ws(s[i + 9])) by {
        assert(crate::json::skip_val(t, 0, t.len() as int) == Option::Some(t.len() as int));
    }
    assert(skip_ws(s, i + 9, end) == i + 9);
    crate::json::lemma_skip_val_embedded(s, i + 9, end, t);
    let k1 = i + 9 + t.len() as int;
    assert(skip_ws(s, k1, end) == k1);
}

/// Walking the `result` member: the raw value text is captured and
/// the walk continues past the follower, or ends at the brace.
#[verifier::rlimit(100)]
proof fn lemma_member_result(s: Seq<u8>, i: int, end: int, acc: PayloadModel, t: Seq<u8>)
    requires
        acc.result is None,
        0 <= i,
        s.subrange(i, i + 9) == l_result().subrange(1, 10),
        s.subrange(i + 9, i + 9 + t.len() as int) == t,
        crate::json::is_value_text(t),
        i + 9 + t.len() < end <= s.len(),
        s[i + 9 + t.len()] == 44 || s[i + 9 + t.len()] == 125,
    ensures
        ({
            let acc2 = PayloadModel { result: Option::Some(t), ..acc };
            let k1 = i + 9 + t.len() as int;
            crate::json::scan_members(s, i, end, acc, false) == if s[k1] == 125 {
                crate::json::ObjScan::Done { value: acc2, next: k1 + 1 }
            } else {
                crate::json::scan_members(s, k1 + 1, end, acc2, false)
            }
        }),
{
    let frag = l_result().subrange(1, 10);
    crate::json::lemma_byte_at(s, i, frag, 0);
    crate::json::lemma_byte_at(s, i, frag, 7);
    crate::json::lemma_byte_at(s, i, frag, 8);
    assert(s[i] == 34 && s[i + 7] == 34 && s[i + 8] == 58);
    assert(skip_ws(s, i, end) == i);
    let key = crate::json::key_result();
    assert forall|k: int| 0 <= k < key.len() implies crate::json::is_plain_byte(
        #[trigger] key[k],
    ) by {}
    crate::json::lemma_esc_plain(key);
    assert(s.subrange(i + 1, i + 7) =~= key) by {
        assert forall|k: int| 0 <= k < 6 implies s.subrange(i + 1, i + 7)[k] == key[k] by {
            crate::json::lemma_byte_at(s, i, frag, 1 + k);
            assert(s[i + 1 + k] == frag[1 + k]);
        }
    }
    crate::json::lemma_scan_string_embedded(s, i + 1, end, key, Seq::empty());
    assert(Seq::empty() + key =~= key);
    assert(skip_ws(s, i + 8, end) == i + 8);
    crate::json::lemma_byte_at(s, i + 9, t, 0);
    assert(!crate::json::is_json_ws(s[i + 9])) by {
        assert(crate::json::skip_val(t, 0, t.len() as int) == Option::Some(t.len() as int));
    }
    assert(skip_ws(s, i + 9, end) == i + 9);
    crate::json::lemma_skip_val_embedded(s, i + 9, end, t);
    let k1 = i + 9 + t.len() as int;
    assert(skip_ws(s, k1, end) == k1);
}

/// Parsing the error object of a failure payload: `code`, `message`
/// and optionally `data`, then the object's closing brace.
#[verifier::rlimit(100)]
proof fn lemma_error_object(
    s: Seq<u8>,
    j: int,
    end: int,
    code: int,
    msg: Seq<u8>,
    data: Option<Seq<u8>>,
)
    requires
        -0x8000_0000_0000_0000 <= code <= 0x7fff_ffff_ffff_ffff,
        0 <= j,
        s.subrange(j, j + 8) == l_error_code().subrange(9, 17),
        s.subrange(j + 8, j + 8 + int_dec_seq(code).len() as int) == int_dec_seq(code),
        ({
            let c_end = j + 8 + int_dec_seq(code).len() as int;
            let m_end = c_end + 11 + quoted(msg).len() as int;
            &&& s.subrange(c_end, c_end + 11) == l_message()
            &&& s.subrange(c_end + 11, m_end) == quoted(msg)
            &&& match data {
                Option::None => s[m_end] == 125 && m_end + 1 <= end <= s.len(),
                Option::Some(t) => {
                    &&& s.subrange(m_end, m_end + 8) == l_data()
                    &&& s.subrange(m_end + 8, m_end + 8 + t.len() as int) == t
                    &&& crate::json::is_value_text(t)
                    &&& s[m_end + 8 + t.len()] == 125
                    &&& m_end + 8 + t.len() + 1 <= end <= s.len()
                },
            }
        }),
    ensures
        ({
            let c_end = j + 8 + int_dec_seq(code).len() as int;
            let m_end = c_end + 11 + quoted(msg).len() as int;
            let after = match data {
                Option::None => m_end + 1,
                Option::Some(t) => m_end + 8 + t.len() as int + 1,
            };
            crate::json::scan_error(s, j, end) == (crate::json::ObjScan::Done {
                value: crate::message::ErrorModel { code, message: msg, data },
                next: after,
            })
        }),
{
    let frag = l_error_code().subrange(9, 17);
    crate::json::lemma_byte_at(s, j, frag, 0);
    crate::json::lemma_byte_at(s, j, frag, 1);
    crate::json::lemma_byte_at(s, j, frag, 6);
    crate::json::lemma_byte_at(s, j, frag, 7);
    assert(s[j] == 123 && s[j + 1] == 34 && s[j + 6] == 34 && s[j + 7] == 58);
    // The `code` member.
    assert(skip_ws(s, j + 1, end) == j + 1);
    let key_c = crate::json::key_code();
    assert forall|k: int| 0 <= k < key_c.len() implies crate::json::is_plain_byte(
        #[trigger] key_c[k],
    ) by {}
    crate::json::lemma_esc_plain(key_c);
    assert(s.subrange(j + 2, j + 6) =~= key_c) by {
        assert forall|k: int| 0 <= k < 4 implies s.subrange(j + 2, j + 6)[k] == key_c[k] by {
            crate::json::lemma_byte_at(s, j, frag, 2 + k);
        }
    }
    crate::json::lemma_scan_string_embedded(s, j + 2, end, key_c, Seq::empty());
    assert(Seq::empty() + key_c =~= key_c);
    assert(skip_ws(s, j + 7, end) == j + 7);
    let ti = int_dec_seq(code);
    let c_end = j + 8 + ti.len() as int;
    crate::json::lemma_byte_at(s, j + 8, ti, 0);
    if code < 0 {
        assert(ti[0] == 45);
    } else {
        crate::bytes::lemma_dec_seq_val(code as nat);
        assert(crate::bytes::is_digit(ti[0]));
    }
    assert(skip_ws(s, j + 8, end) == j + 8);
    let lm = l_message();
    crate::json::lemma_byte_at(s, c_end, lm, 0);
    assert(s[c_end] == 44);
    crate::json::lemma_scan_int_embedded(s, j + 8, end, code);
    assert(skip_ws(s, c_end, end) == c_end);
    // The `message` member.
    crate::json::lemma_byte_at(s, c_end, lm, 1);
    crate::json::lemma_byte_at(s, c_end, lm, 9);
    crate::json::lemma_byte_at(s, c_end, lm, 10);
    assert(s[c_end + 1] == 34 && s[c_end + 9] == 34 && s[c_end + 10] == 58);
    assert(skip_ws(s, c_end + 1, end) == c_end + 1);
    let key_m = crate::json::key_message();
    assert forall|k: int| 0 <= k < key_m.len() implies crate::json::is_plain_byte(
        #[trigger] key_m[k],
    ) by {}
    crate::json::lemma_esc_plain(key_m);
    assert(s.subrange(c_end + 2, c_end + 9) =~= key_m) by {
        assert forall|k: int| 0 <= k < 7 implies s.subrange(c_end + 2, c_end + 9)[k] == key_m[k]
            by {
            crate::json::lemma_byte_at(s, c_end, lm, 2 + k);
        }
    }
    crate::json::lemma_scan_string_embedded(s, c_end + 2, end, key_m, Seq::empty());
    assert(Seq::empty() + key_m =~= key_m);
    assert(skip_ws(s, c_end + 10, end) == c_end + 10);
    // The message value.
    let q = quoted(msg);
    let ql = q.len() as int;
    let m_end = c_end + 11 + ql;
    crate::json::lemma_byte_at(s, c_end + 11, q, 0);
    assert(q[0] == 34);
    assert(skip_ws(s, c_end + 11, end) == c_end + 11);
    let el = crate::json::esc_seq(msg).len() as int;
    crate::json::lemma_sub_window(s, c_end + 11, q, 1, 1 + el);
    assert(q.subrange(1, 1 + el) =~= crate::json::esc_seq(msg));
    crate::json::lemma_byte_at(s, c_end + 11, q, 1 + el);
    assert(q[1 + el] == 34);
    crate::json::lemma_scan_string_embedded(s, c_end + 12, end, msg, Seq::empty());
    assert(Seq::empty() + msg =~= msg);
    assert(skip_ws(s, m_end, end) == m_end);
    let f0 = crate::json::ErrorFields {
        code: Option::None,
        message: Option::None,
        data: Option::None,
    };
    let f1 = crate::json::ErrorFields {
        code: Option::Some(code),
        message: Option::None,
        data: Option::None,
    };
    let f2 = crate::json::ErrorFields {
        code: Option::Some(code),
        message: Option::Some(msg),
        data: Option::None,
    };
    match data {
        Option::None => {
            assert(crate::json::scan_error_members(s, c_end + 1, end, f1, false)
                == (crate::json::ObjScan::Done { value: f2, next: m_end + 1 }));
            assert(crate::json::scan_error_members(s, j + 1, end, f0, true)
                == (crate::json::ObjScan::Done { value: f2, next: m_end + 1 }));
        },
        Option::Some(t) => {
            // The `data` member.
            let ld = l_data();
            crate::json::lemma_byte_at(s, m_end, ld, 0);
            crate::json::lemma_byte_at(s, m_end, ld, 1);
            crate::json::lemma_byte_at(s, m_end, ld, 6);
            crate::json::lemma_byte_at(s, m_end, ld, 7);
            assert(s[m_end] == 44 && s[m_end + 1] == 34 && s[m_end + 6] == 34 && s[m_end + 7]
                == 58);
            assert(skip_ws(s, m_end + 1, end) == m_end + 1);
            let key_d = crate::json::key_data();
            assert forall|k: int| 0 <= k < key_d.len() implies crate::json::is_plain_byte(
                #[trigger] key_d[k],
            ) by {}
            crate::json::lemma_esc_plain(key_d);
            assert(s.subrange(m_end + 2, m_end + 6) =~= key_d) by {
                assert forall|k: int| 0 <= k < 4 implies s.subrange(m_end + 2, m_end + 6)[k]
                    == key_d[k] by {
                    crate::json::lemma_byte_at(s, m_end, ld, 2 + k);
                }
            }
            crate::json::lemma_scan_string_embedded(s, m_end + 2, end, key_d, Seq::empty());
            assert(Seq::empty() + key_d =~= key_d);
            assert(skip_ws(s, m_end + 7, end) == m_end + 7);
            let d0 = m_end + 8;
            crate::json::lemma_byte_at(s, d0, t, 0);
            assert(!crate::json::is_json_ws(s[d0])) by {
                assert(crate::json::skip_val(t, 0, t.len() as int) == Option::Some(
                    t.len() as int,
                ));
            }
            assert(skip_ws(s, d0, end) == d0);
            crate::json::lemma_skip_val_embedded(s, d0, end, t);
            let d_end = d0 + t.len() as int;
            assert(skip_ws(s, d_end, end) == d_end);
            let f3 = crate::json::ErrorFields {
                code: Option::Some(code),
                message: Option::Some(msg),
                data: Option::Some(s.subrange(d0, d_end)),
            };
            assert(s.subrange(d0, d_end) == t);
            assert(crate::json::scan_error_members(s, m_end + 1, end, f2, false)
                == (crate::json::ObjScan::Done { value: f3, next: d_end + 1 }));
            assert(crate::json::scan_error_members(s, c_end + 1, end, f1, false)
                == crate::json::scan_error_members(s, m_end + 1, end, f2, false));
            assert(crate::json::scan_error_members(s, j + 1, end, f0, true)
                == crate::json::scan_error_members(s, c_end + 1, end, f1, false));
        },
    }
}

/// Walking the `error` member of a failure payload: the error object
/// is parsed into its model and the envelope closes right after it.
#[verifier::rlimit(100)]
proof fn lemma_member_error(
    s: Seq<u8>,
    i: int,
    end: int,
    acc: PayloadModel,
    code: int,
    msg: Seq<u8>,
    data: Option<Seq<u8>>,
)
    requires
        acc.error is None,
        -0x8000_0000_0000_0000 <= code <= 0x7fff_ffff_ffff_ffff,
        0 <= i,
        s.subrange(i, i + 16) == l_error_code().subrange(1, 17),
        s.subrange(i + 16, i + 16 + int_dec_seq(code).len() as int) == int_dec_seq(code),
        ({
            let c_end = i + 16 + int_dec_seq(code).len() as int;
            let m_end = c_end + 11 + quoted(msg).len() as int;
            &&& s.subrange(c_end, c_end + 11) == l_message()
            &&& s.subrange(c_end + 11, m_end) == quoted(msg)
            &&& match data {
                Option::None => s[m_end] == 125 && m_end + 2 <= end <= s.len() && s[m_end + 1]
                    == 125,
                Option::Some(t) => {
                    &&& s.subrange(m_end, m_end + 8) == l_data()
                    &&& s.subrange(m_end + 8, m_end + 8 + t.len() as int) == t
                    &&& crate::json::is_value_text(t)
                    &&& s[m_end + 8 + t.len()] == 125
                    &&& m_end + 8 + t.len() + 2 <= end <= s.len()
                    &&& s[m_end + 8 + t.len() + 1] == 125
                },
            }
        }),
    ensures
        ({
            let c_end = i + 16 + int_dec_seq(code).len() as int;
            let m_end = c_end + 11 + quoted(msg).len() as int;
            let after = match data {
                Option::None => m_end + 1,
                Option::Some(t) => m_end + 8 + t.len() as int + 1,
            };
            let em = crate::message::ErrorModel { code, message: msg, data };
            crate::json::scan_members(s, i, end, acc, false) == (crate::json::ObjScan::Done {
                value: PayloadModel { error: Option::Some(em), ..acc },
                next: after + 1,
            })
        }),
{
    let frag = l_error_code().subrange(1, 17);
    crate::json::lemma_byte_at(s, i, frag, 0);
    crate::json::lemma_byte_at(s, i, frag, 6);
    crate::json::lemma_byte_at(s, i, frag, 7);
    crate::json::lemma_byte_at(s, i, frag, 8);
    assert(s[i] == 34 && s[i + 6] == 34 && s[i + 7] == 58 && s[i + 8] == 123);
    assert(skip_ws(s, i, end) == i);
    // The outer key: `error`.
    let key_e = crate::json::key_error();
    assert forall|k: int| 0 <= k < key_e.len() implies crate::json::is_plain_byte(
        #[trigger] key_e[k],
    ) by {}
    crate::json::lemma_esc_plain(key_e);
    assert(s.subrange(i + 1, i + 6) =~= key_e) by {
        assert forall|k: int| 0 <= k < 5 implies s.subrange(i + 1, i + 6)[k] == key_e[k] by {
            crate::json::lemma_byte_at(s, i, frag, 1 + k);
        }
    }
    crate::json::lemma_scan_string_embedded(s, i + 1, end, key_e, Seq::empty());
    assert(Seq::empty() + key_e =~= key_e);
    assert(skip_ws(s, i + 7, end) == i + 7);
    assert(skip_ws(s, i + 8, end) == i + 8);
    // The error object itself.
    crate::json::lemma_sub_window(s, i, frag, 8, 16);
    assert(frag.subrange(8, 16) =~= l_error_code().subrange(9, 17));
    lemma_error_object(s, i + 8, end, code, msg, data);
    let c_end = i + 16 + int_dec_seq(code).len() as int;
    let m_end = c_end + 11 + quoted(msg).len() as int;
    let after = match data {
        Option::None => m_end + 1,
        Option::Some(t) => m_end + 8 + t.len() as int + 1,
    };
    assert(s[after] == 125);
    assert(skip_ws(s, after, end) == after);
}

/// A request payload embedded in a byte stream parses back to its
/// own payload model.
#[verifier::rlimit(100)]
proof fn lemma_payload_request(s: Seq<u8>, p0: int, id: int, mtd: Seq<u8>, params: Option<Seq<u8>>)
    requires
        -0x8000_0000_0000_0000 <= id <= 0x7fff_ffff_ffff_ffff,
        crate::message::opt_value_text(params),
        0 <= p0,
        ({
            let m = MessageModel::Request { id, method: mtd, params };
            &&& p0 + payload_text(m).len() <= s.len()
            &&& s.subrange(p0, p0 + payload_text(m).len() as int) == payload_text(m)
        }),
    ensures
        ({
            let m = MessageModel::Request { id, method: mtd, params };
            parse_payload(s, p0, p0 + payload_text(m).len() as int) == Option::Some(
                crate::message::payload_of(m),
            )
        }),
{
    let m = MessageModel::Request { id, method: mtd, params };
    let t = payload_text(m);
    let hi = p0 + t.len() as int;
    let a = l_obj_head();
    let b = l_id();
    let ids = int_dec_seq(id);
    let il = ids.len() as int;
    let c = l_method();
    let q = quoted(mtd);
    let ql = q.len() as int;
    let pp = params_part(params);
    let close = seq![125u8];
    assert(t == a + b + ids + c + q + pp + close);
    let y5 = a + b + ids + c + q + pp;
    crate::json::lemma_concat_split(s, p0, y5, close);
    let o_close = p0 + y5.len() as int;
    crate::json::lemma_byte_at(s, o_close, close, 0);
    assert(s[o_close] == 125);
    let y4 = a + b + ids + c + q;
    crate::json::lemma_concat_split(s, p0, y4, pp);
    let o_pp = p0 + y4.len() as int;
    let y3 = a + b + ids + c;
    crate::json::lemma_concat_split(s, p0, y3, q);
    let o_q = p0 + y3.len() as int;
    let y2 = a + b + ids;
    crate::json::lemma_concat_split(s, p0, y2, c);
    let o_c = p0 + y2.len() as int;
    let y1 = a + b;
    crate::json::lemma_concat_split(s, p0, y1, ids);
    let o_id = p0 + y1.len() as int;
    crate::json::lemma_concat_split(s, p0, a, b);
    let o_b = p0 + 16;
    // The walk through the members.
    crate::json::lemma_byte_at(s, p0, a, 0);
    assert(s[p0] == 123);
    assert(skip_ws(s, p0, hi) == p0);
    crate::json::lemma_byte_at(s, o_b, b, 0);
    assert(s[o_b] == 44);
    lemma_member_jsonrpc(s, p0, hi, PayloadModel::empty());
    crate::json::lemma_sub_window(s, o_b, b, 1, 6);
    crate::json::lemma_byte_at(s, o_c, c, 0);
    assert(s[o_c] == 44);
    let acc1 = PayloadModel { id: Option::Some(id), ..PayloadModel::empty() };
    lemma_member_id(s, p0 + 17, hi, PayloadModel::empty(), id);
    crate::json::lemma_sub_window(s, o_c, c, 1, 10);
    let acc2 = PayloadModel { method: Option::Some(mtd), ..acc1 };
    match params {
        Option::None => {
            assert(pp == Seq::<u8>::empty());
            assert(o_pp == o_close);
            lemma_member_method(s, o_c + 1, hi, acc1, mtd);
            assert(crate::json::scan_members(s, o_c + 1, hi, acc1, false)
                == (crate::json::ObjScan::Done { value: acc2, next: o_close + 1 }));
        },
        Option::Some(pt) => {
            crate::json::lemma_concat_split(s, o_pp, l_params(), pt);
            crate::json::lemma_byte_at(s, o_pp, l_params(), 0);
            assert(s[o_pp] == 44);
            lemma_member_method(s, o_c + 1, hi, acc1, mtd);
            crate::json::lemma_sub_window(s, o_pp, l_params(), 1, 10);
            let acc3 = PayloadModel { params: Option::Some(pt), ..acc2 };
            lemma_member_params(s, o_pp + 1, hi, acc2, pt);
            assert(crate::json::scan_members(s, o_pp + 1, hi, acc2, false)
                == (crate::json::ObjScan::Done { value: acc3, next: o_close + 1 }));
        },
    }
    assert(skip_ws(s, hi, hi) == hi);
    assert(crate::message::payload_of(m) == (match params {
        Option::None => PayloadModel { method: Option::Some(mtd), ..acc1 },
        Option::Some(pt) => PayloadModel {
            params: Option::Some(pt),
            ..PayloadModel { method: Option::Some(mtd), ..acc1 }
        },
    }));
}

/// A notification payload embedded in a byte stream parses back to
/// its own payload model.
#[verifier::rlimit(100)]
proof fn lemma_payload_notification(s: Seq<u8>, p0: int, mtd: Seq<u8>, params: Option<Seq<u8>>)
    requires
        crate::message::opt_value_text(params),
        0 <= p0,
        ({
            let m = MessageModel::Notification { method: mtd, params };
            &&& p0 + payload_text(m).len() <= s.len()
            &&& s.subrange(p0, p0 + payload_text(m).len() as int) == payload_text(m)
        }),
    ensures
        ({
            let m = MessageModel::Notification { method: mtd, params };
            parse_payload(s, p0, p0 + payload_text(m).len() as int) == Option::Some(
                crate::message::payload_of(m),
            )
        }),
{
    let m = MessageModel::Notification { method: mtd, params };
    let t = payload_text(m);
    let hi = p0 + t.len() as int;
    let a = l_obj_head();
    let c = l_method();
    let q = quoted(mtd);
    let pp = params_part(params);
    let close = seq![125u8];
    assert(t == a + c + q + pp + close);
    let y3 = a + c + q + pp;
    crate::json::lemma_concat_split(s, p0, y3, close);
    let o_close = p0 + y3.len() as int;
    crate::json::lemma_byte_at(s, o_close, close, 0);
    assert(s[o_close] == 125);
    let y2 = a + c + q;
    crate::json::lemma_concat_split(s, p0, y2, pp);
    let o_pp = p0 + y2.len() as int;
    let y1 = a + c;
    crate::json::lemma_concat_split(s, p0, y1, q);
    let o_q = p0 + y1.len() as int;
    crate::json::lemma_concat_split(s, p0, a, c);
    let o_c = p0 + 16;
    crate::json::lemma_byte_at(s, p0, a, 0);
    assert(s[p0] == 123);
    assert(skip_ws(s, p0, hi) == p0);
    crate::json::lemma_byte_at(s, o_c, c, 0);
    assert(s[o_c] == 44);
    lemma_member_jsonrpc(s, p0, hi, PayloadModel::empty());
    crate::json::lemma_sub_window(s, o_c, c, 1, 10);
    let acc1 = PayloadModel { method: Option::Some(mtd), ..PayloadModel::empty() };
    match params {
        Option::None => {
            assert(pp == Seq::<u8>::empty());
            assert(o_pp == o_close);
            lemma_member_method(s, o_c + 1, hi, PayloadModel::empty(), mtd);
            assert(crate::json::scan_members(s, o_c + 1, hi, PayloadModel::empty(), false)
                == (crate::json::ObjScan::Done { value: acc1, next: o_close + 1 }));
        },
        Option::Some(pt) => {
            crate::json::lemma_concat_split(s, o_pp, l_params(), pt);
            crate::json::lemma_byte_at(s, o_pp, l_params(), 0);
            assert(s[o_pp] == 44);
            lemma_member_method(s, o_c + 1, hi, PayloadModel::empty(), mtd);
            crate::json::lemma_sub_window(s, o_pp, l_params(), 1, 10);
            let acc2 = PayloadModel { params: Option::Some(pt), ..acc1 };
            lemma_member_params(s, o_pp + 1, hi, acc1, pt);
            assert(crate::json::scan_members(s, o_pp + 1, hi, acc1, false)
                == (crate::json::ObjScan::Done { value: acc2, next: o_close + 1 }));
        },
    }
    assert(skip_ws(s, hi, hi) == hi);
}

/// A successful response payload embedded in a byte stream parses
/// back to its own payload model.
#[verifier::rlimit(100)]
proof fn lemma_payload_success(s: Seq<u8>, p0: int, id: int, result: Seq<u8>)
    requires
        -0x8000_0000_0000_0000 <= id <= 0x7fff_ffff_ffff_ffff,
        crate::json::is_value_text(result),
        0 <= p0,
        ({
            let m = MessageModel::Response {
                id,
                outcome: OutcomeModel::Success { result },
            };
            &&& p0 + payload_text(m).len() <= s.len()
            &&& s.subrange(p0, p0 + payload_text(m).len() as int) == payload_text(m)
        }),
    ensures
        ({
            let m = MessageModel::Response {
                id,
                outcome: OutcomeModel::Success { result },
            };
            parse_payload(s, p0, p0 + payload_text(m).len() as int) == Option::Some(
                crate::message::payload_of(m),
            )
        }),
{
    let m = MessageModel::Response { id, outcome: OutcomeModel::Success { result } };
    let t = payload_text(m);
    let hi = p0 + t.len() as int;
    let a = l_obj_head();
    let b = l_id();
    let ids = int_dec_seq(id);
    let c = l_result();
    let close = seq![125u8];
    assert(t == a + b + ids + c + result + close);
    let y4 = a + b + ids + c + result;
    crate::json::lemma_concat_split(s, p0, y4, close);
    let o_close = p0 + y4.len() as int;
    crate::json::lemma_byte_at(s, o_close, close, 0);
    assert(s[o_close] == 125);
    let y3 = a + b + ids + c;
    crate::json::lemma_concat_split(s, p0, y3, result);
    let o_r = p0 + y3.len() as int;
    let y2 = a + b + ids;
    crate::json::lemma_concat_split(s, p0, y2, c);
    let o_c = p0 + y2.len() as int;
    let y1 = a + b;
    crate::json::lemma_concat_split(s, p0, y1, ids);
    crate::json::lemma_concat_split(s, p0, a, b);
    let o_b = p0 + 16;
    crate::json::lemma_byte_at(s, p0, a, 0);
    assert(s[p0] == 123);
    assert(skip_ws(s, p0, hi) == p0);
    crate::json::lemma_byte_at(s, o_b, b, 0);
    assert(s[o_b] == 44);
    lemma_member_jsonrpc(s, p0, hi, PayloadModel::empty());
    crate::json::lemma_sub_window(s, o_b, b, 1, 6);
    crate::json::lemma_byte_at(s, o_c, c, 0);
    assert(s[o_c] == 44);
    let acc1 = PayloadModel { id: Option::Some(id), ..PayloadModel::empty() };
    lemma_member_id(s, p0 + 17, hi, PayloadModel::empty(), id);
    crate::json::lemma_sub_window(s, o_c, c, 1, 10);
    let acc2 = PayloadModel { result: Option::Some(result), ..acc1 };
    lemma_member_result(s, o_c + 1, hi, acc1, result);
    assert(crate::json::scan_members(s, o_c + 1, hi, acc1, false) == (crate::json::ObjScan::Done {
        value: acc2,
        next: o_close + 1,
    }));
    assert(skip_ws(s, hi, hi) == hi);
}

/// A failure response payload embedded in a byte stream parses back
/// to its own payload model.
#[verifier::rlimit(100)]
proof fn lemma_payload_failure(
    s: Seq<u8>,
    p0: int,
    id: int,
    code: int,
    msg: Seq<u8>,
    data: Option<Seq<u8>>,
)
    requires
        -0x8000_0000_0000_0000 <= id <= 0x7fff_ffff_ffff_ffff,
        -0x8000_0000_0000_0000 <= code <= 0x7fff_ffff_ffff_ffff,
        crate::message::opt_value_text(data),
        0 <= p0,
        ({
            let m = MessageModel::Response {
                id,
                outcome: OutcomeModel::Failure { code, message: msg, data },
            };
            &&& p0 + payload_text(m).len() <= s.len()
            &&& s.subrange(p0, p0 + payload_text(m).len() as int) == payload_text(m)
        }),
    ensures
        ({
            let m = MessageModel::Response {
                id,
                outcome: OutcomeModel::Failure { code, message: msg, data },
            };
            parse_payload(s, p0, p0 + payload_text(m).len() as int) == Option::Some(
                crate::message::payload_of(m),
            )
        }),
{
    let m = MessageModel::Response { id, outcome: OutcomeModel::Failure { code, message: msg, data } };
    let t = payload_text(m);
    let hi = p0 + t.len() as int;
    let a = l_obj_head();
    let b = l_id();
    let ids = int_dec_seq(id);
    let ec = l_error_code();
    let cds = int_dec_seq(code);
    let lm = l_message();
    let q = quoted(msg);
    let dp = data_part(data);
    let close2 = seq![125u8, 125];
    assert(t == a + b + ids + ec + cds + lm + q + dp + close2);
    let y7 = a + b + ids + ec + cds + lm + q + dp;
    crate::json::lemma_concat_split(s, p0, y7, close2);
    let o_cl = p0 + y7.len() as int;
    crate::json::lemma_byte_at(s, o_cl, close2, 0);
    crate::json::lemma_byte_at(s, o_cl, close2, 1);
    assert(s[o_cl] == 125 && s[o_cl + 1] == 125);
    let y6 = a + b + ids + ec + cds + lm + q;
    crate::json::lemma_concat_split(s, p0, y6, dp);
    let o_dp = p0 + y6.len() as int;
    let y5 = a + b + ids + ec + cds + lm;
    crate::json::lemma_concat_split(s, p0, y5, q);
    let o_q = p0 + y5.len() as int;
    let y4 = a + b + ids + ec + cds;
    crate::json::lemma_concat_split(s, p0, y4, lm);
    let o_lm = p0 + y4.len() as int;
    let y3 = a + b + ids + ec;
    crate::json::lemma_concat_split(s, p0, y3, cds);
    let o_cds = p0 + y3.len() as int;
    let y2 = a + b + ids;
    crate::json::lemma_concat_split(s, p0, y2, ec);
    let o_ec = p0 + y2.len() as int;
    let y1 = a + b;
    crate::json::lemma_concat_split(s, p0, y1, ids);
    crate::json::lemma_concat_split(s, p0, a, b);
    let o_b = p0 + 16;
    crate::json::lemma_byte_at(s, p0, a, 0);
    assert(s[p0] == 123);
    assert(skip_ws(s, p0, hi) == p0);
    crate::json::lemma_byte_at(s, o_b, b, 0);
    assert(s[o_b] == 44);
    lemma_member_jsonrpc(s, p0, hi, PayloadModel::empty());
    crate::json::lemma_sub_window(s, o_b, b, 1, 6);
    crate::json::lemma_byte_at(s, o_ec, ec, 0);
    assert(s[o_ec] == 44);
    let acc1 = PayloadModel { id: Option::Some(id), ..PayloadModel::empty() };
    lemma_member_id(s, p0 + 17, hi, PayloadModel::empty(), id);
    // The error member's windows.
    crate::json::lemma_sub_window(s, o_ec, ec, 1, 17);
    let em = crate::message::ErrorModel { code, message: msg, data };
    let acc2 = PayloadModel { error: Option::Some(em), ..acc1 };
    match data {
        Option::None => {
            assert(dp == Seq::<u8>::empty());
            assert(o_dp == o_cl);
            lemma_member_error(s, o_ec + 1, hi, acc1, code, msg, data);
            assert(crate::json::scan_members(s, o_ec + 1, hi, acc1, false)
                == (crate::json::ObjScan::Done { value: acc2, next: o_cl + 2 }));
        },
        Option::Some(dt) => {
            crate::json::lemma_concat_split(s, o_dp, l_data(), dt);
            lemma_member_error(s, o_ec + 1, hi, acc1, code, msg, data);
            assert(crate::json::scan_members(s, o_ec + 1, hi, acc1, false)
                == (crate::json::ObjScan::Done { value: acc2, next: o_cl + 2 }));
        },
    }
    assert(skip_ws(s, hi, hi) == hi);
}

/// The machine bounds any message on a real wire obeys: identifiers
/// and error codes fit a 64-bit signed word, and the payload fits the
/// machine's word-sized lengths.
pub open spec fn fits_wire(m: MessageModel) -> bool {
    &&& payload_text(m).len() <= usize::MAX
    &&& match m {
        MessageModel::Request { id, .. } => -0x8000_0000_0000_0000 <= id
            <= 0x7fff_ffff_ffff_ffff,
        MessageModel::Notification { .. } => true,
        MessageModel::Response { id, outcome } => {
            &&& -0x8000_0000_0000_0000 <= id <= 0x7fff_ffff_ffff_ffff
            &&& match outcome {
                OutcomeModel::Success { .. } => true,
                OutcomeModel::Failure { code, .. } => -0x8000_0000_0000_0000 <= code
                    <= 0x7fff_ffff_ffff_ffff,
            }
        },
    }
}

/// The round trip: decoding an encoded message yields one complete
/// frame, consuming exactly the encoded bytes, whose payload
/// classifies back to the message itself — same shape, same
/// identifier, same method, same result or error content.
pub proof fn lemma_round_trip(m: MessageModel, eof: bool)
    requires
        m.wf(),
        fits_wire(m),
    ensures
        decode_spec(encode_spec(m), 0, eof) == DecodeSpec::Frame(
            crate::message::payload_of(m),
            encode_spec(m).len() as int,
        ),
        crate::message::classify_model(crate::message::payload_of(m)) == Option::Some(m),
{
    let payload = payload_text(m);
    let s = encode_spec(m);
    lemma_headers_of_frame(s, payload);
    let start = frame_head_len(payload.len());
    let head = l_header() + dec_seq(payload.len()) + seq![13u8, 10, 13, 10];
    assert(s == head + payload);
    assert(s.subrange(0, s.len() as int) =~= head + payload);
    crate::json::lemma_concat_split(s, 0, head, payload);
    assert(s.subrange(start, start + payload.len() as int) == payload);
    match m {
        MessageModel::Request { id, method, params } => {
            lemma_payload_request(s, start, id, method, params);
        },
        MessageModel::Notification { method, params } => {
            lemma_payload_notification(s, start, method, params);
        },
        MessageModel::Response { id, outcome } => match outcome {
            OutcomeModel::Success { result } => {
                lemma_payload_success(s, start, id, result);
            },
            OutcomeModel::Failure { code, message, data } => {
                lemma_payload_failure(s, start, id, code, message, data);
            },
        },
    }
    crate::message::lemma_classify_payload_of(m);
}

} // verus!
