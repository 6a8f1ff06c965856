//! The HTTP/1.1 framing of the local server: when a request has been read in
//! full, what it asks for, and the head of the answer.
use vstd::prelude::*;
use crate::custom::{find_char, index_of, sub_vec};
use crate::decimal::{decimal, push_decimal};
use crate::escape::{from_utf8_lossy, utf8_lossy};
use crate::json::{bytes_at, find_subsequence};
use crate::pronounce::push_str;
use crate::state::{parse_usize, spec_parse_usize, split_whitespace_chars, split_ws};
use crate::text::{chars_of, lower, owned, spec_lower, string_of, trim, trim_chars};
use crate::tokens::{lines_of, spec_lines};

verus! {

/// The largest request head the server reads.
pub const MAX_HTTP_HEADER_BYTES: usize = 65536;

/// The largest request body the server accepts.
pub const MAX_HTTP_BODY_BYTES: usize = 4194304;

// ---------------------------------------------------------------------------
// Reading a request
// ---------------------------------------------------------------------------

/// What has been learnt of a request so far: where its head ends, and the
/// length of its body.
pub struct RequestScan {
    pub header_end: Option<usize>,
    pub content_length: usize,
}

/// After a read: read on, the request is complete, or it is refused.
pub enum ScanStep {
    Continue(RequestScan),
    Complete(RequestScan),
    Refused(String),
}

/// The first place where the blank line that ends a head stands.
pub open spec fn head_end(data: Seq<u8>) -> Option<int> {
    let crlf2 = seq![13u8, 10u8, 13u8, 10u8];
    if exists|k: int| bytes_at(data, crlf2, k) {
        Some(choose|k: int| bytes_at(data, crlf2, k) && forall|j: int| 0 <= j < k ==> !bytes_at(data, crlf2, j))
    } else {
        None
    }
}

/// Whether a header name is `Content-Length`, in any case.
pub open spec fn is_content_length_name(name: Seq<char>) -> bool {
    name.len() == 14 && forall|k: int| 0 <= k < 14 ==> spec_lower(#[trigger] name[k]) == "content-length"@[k]
}

/// The length a header line gives, where it is a `Content-Length` line
/// whose value is a number.
pub open spec fn line_content_length(line: Seq<char>) -> Option<nat> {
    match index_of(line, ':') {
        Some(i) => if is_content_length_name(line.take(i)) {
            spec_parse_usize(trim(line.skip(i + 1)))
        } else {
            None
        },
        None => None,
    }
}

/// The length given by the first header line that gives one.
pub open spec fn first_content_length(lines: Seq<Seq<char>>) -> Option<nat>
    decreases lines.len(),
{
    if lines.len() == 0 {
        None
    } else {
        match line_content_length(lines[0]) {
            Some(n) => Some(n),
            None => first_content_length(lines.drop_first()),
        }
    }
}

/// The body length a request head announces: none is an empty body.
pub open spec fn header_content_length(headers: Seq<char>) -> nat {
    match first_content_length(spec_lines(headers)) {
        Some(n) => n,
        None => 0,
    }
}

/// The head of a request as text.
pub open spec fn head_text(data: Seq<u8>, end: int) -> Seq<char> {
    utf8_lossy(data.take(end))
}

/// What a read changes: while the head has not been seen, a head over the
/// limit is refused, and once its end is found, the body length is read
/// and a body over the limit is refused; the request is complete once the
/// head and the whole body are in.
pub open spec fn spec_scan_request(header_end: Option<usize>, content_length: usize, data: Seq<u8>) -> Result<
    (Option<int>, nat, bool),
    Seq<char>,
> {
    let found: Result<(Option<int>, nat), Seq<char>> = if header_end is None {
        if data.len() > MAX_HTTP_HEADER_BYTES {
            Err("HTTP 请求头过大。"@)
        } else {
            match head_end(data) {
                Some(end) => {
                    let n = header_content_length(head_text(data, end));
                    if n > MAX_HTTP_BODY_BYTES {
                        Err("HTTP 请求正文过大。"@)
                    } else {
                        Ok((Some(end), n))
                    }
                },
                None => Ok((None, content_length as nat)),
            }
        }
    } else {
        match header_end {
            Some(e) => Ok((Some(e as int), content_length as nat)),
            None => Ok((None, content_length as nat)),
        }
    };
    match found {
        Err(e) => Err(e),
        Ok((end, n)) => Ok(
            (
                end,
                n,
                match end {
                    Some(e) => data.len() >= e + 4 + n,
                    None => false,
                },
            ),
        ),
    }
}

fn line_length(line: &String) -> (r: Option<usize>)
    ensures
        r matches Some(n) ==> line_content_length(line@) == Some(n as nat),
        r is None ==> line_content_length(line@) is None,
{
    let v = chars_of(line.as_str());
    let i = match find_char(&v, ':') {
        Some(i) => i,
        None => return None,
    };
    if i != 14 {
        return None;
    }
    let name_pattern = chars_of("content-length");
    proof {
        reveal_strlit("content-length");
    }
    let mut k: usize = 0;
    while k < 14
        invariant
            k <= 14,
            i == 14,
            i < v@.len(),
            name_pattern@ == "content-length"@,
            "content-length"@.len() == 14,
            v@ == line@,
            index_of(line@, ':') == Some(14int),
            forall|j: int| 0 <= j < k ==> spec_lower(#[trigger] v@.take(14)[j]) == "content-length"@[j],
        decreases 14 - k,
    {
        if lower(v[k]) != name_pattern[k] {
            assert(spec_lower(v@.take(14)[k as int]) != "content-length"@[k as int]);
            assert(v@ == line@);
            assert(!is_content_length_name(line@.take(i as int)));
            return None;
        }
        k += 1;
    }
    let value = sub_vec(&v, i + 1, v.len());
    assert(value@ =~= v@.skip(i + 1));
    let trimmed = trim_chars(&value);
    parse_usize(&trimmed)
}

fn content_length_of(headers: &str) -> (r: usize)
    ensures
        r == header_content_length(headers@),
{
    let v = chars_of(headers);
    let lines = lines_of(&v);
    let ghost lv = lines.deep_view();
    let mut i: usize = 0;
    assert(lv.skip(0) =~= lv);
    while i < lines.len()
        invariant
            i <= lines@.len(),
            lv == lines.deep_view(),
            lv == spec_lines(headers@),
            first_content_length(lv) == first_content_length(lv.skip(i as int)),
        decreases lines@.len() - i,
    {
        assert(lv.skip(i as int)[0] == lines@[i as int]@);
        assert(lv.skip(i as int).drop_first() =~= lv.skip(i + 1));
        match line_length(&lines[i]) {
            Some(n) => return n,
            None => {},
        }
        i += 1;
    }
    assert(lv.skip(i as int).len() == 0);
    0
}

proof fn lemma_first_head_end(data: Seq<u8>, i: int)
    requires
        bytes_at(data, seq![13u8, 10u8, 13u8, 10u8], i),
        forall|j: int| 0 <= j < i ==> !bytes_at(data, seq![13u8, 10u8, 13u8, 10u8], j),
    ensures
        head_end(data) == Some(i),
{
    let crlf2 = seq![13u8, 10u8, 13u8, 10u8];
    let k = choose|k: int| bytes_at(data, crlf2, k) && forall|j: int| 0 <= j < k ==> !bytes_at(data, crlf2, j);
    assert(bytes_at(data, crlf2, k) && forall|j: int| 0 <= j < k ==> !bytes_at(data, crlf2, j));
    if k < i {
        assert(!bytes_at(data, crlf2, k));
    }
    if i < k {
        assert(!bytes_at(data, crlf2, i));
    }
}

fn head_bytes(data: &[u8], end: usize) -> (r: Vec<u8>)
    requires
        end <= data@.len(),
    ensures
        r@ == data@.take(end as int),
{
    let mut out: Vec<u8> = Vec::new();
    let mut i: usize = 0;
    while i < end
        invariant
            i <= end <= data@.len(),
            out@ == data@.take(i as int),
        decreases end - i,
    {
        out.push(data[i]);
        assert(out@ =~= data@.take(i + 1));
        i += 1;
    }
    out
}

/// Takes in what has been read of a request so far, with what was learnt
/// before; says whether to read on, whether the request is complete, or
/// why it is refused.
pub fn scan_request(scan: &RequestScan, data: &[u8]) -> (r: ScanStep)
    requires
        match scan.header_end {
            Some(e) => scan.content_length <= MAX_HTTP_BODY_BYTES && e + 4 <= data@.len(),
            None => true,
        },
    ensures
        match spec_scan_request(scan.header_end, scan.content_length, data@) {
            Err(e) => r matches ScanStep::Refused(m) && m@ == e,
            Ok((end, n, done)) => {
                let next = if done {
                    r matches ScanStep::Complete(s) && s.header_end matches Some(x) && end == Some(x as int)
                        && s.content_length == n
                } else {
                    r matches ScanStep::Continue(s) && (match s.header_end {
                        Some(x) => end == Some(x as int),
                        None => end is None,
                    }) && s.content_length == n
                };
                next
            },
        },
        match r {
            ScanStep::Continue(s) => match s.header_end {
                Some(e) => s.content_length <= MAX_HTTP_BODY_BYTES && e + 4 <= data@.len(),
                None => true,
            },
            ScanStep::Complete(s) => match s.header_end {
                Some(e) => s.content_length <= MAX_HTTP_BODY_BYTES && e + 4 <= data@.len(),
                None => false,
            },
            ScanStep::Refused(_) => true,
        },
{
    proof {
        reveal_strlit("HTTP 请求头过大。");
        reveal_strlit("HTTP 请求正文过大。");
    }
    let mut header_end = scan.header_end;
    let mut content_length = scan.content_length;
    if header_end.is_none() {
        if data.len() > MAX_HTTP_HEADER_BYTES {
            return ScanStep::Refused(owned("HTTP 请求头过大。"));
        }
        let crlf2: Vec<u8> = vec![13u8, 10u8, 13u8, 10u8];
        assert(crlf2@ =~= seq![13u8, 10u8, 13u8, 10u8]);
        match find_subsequence(data, crlf2.as_slice()) {
            Some(end) => {
                proof {
                    lemma_first_head_end(data@, end as int);
                }
                let head = head_bytes(data, end);
                let headers = from_utf8_lossy(&head);
                let n = content_length_of(headers.as_str());
                if n > MAX_HTTP_BODY_BYTES {
                    return ScanStep::Refused(owned("HTTP 请求正文过大。"));
                }
                header_end = Some(end);
                content_length = n;
            },
            None => {
                assert(head_end(data@) is None);
            },
        }
    }
    match header_end {
        Some(end) => {
            if data.len() - end - 4 >= content_length {
                ScanStep::Complete(RequestScan { header_end: Some(end), content_length })
            } else {
                ScanStep::Continue(RequestScan { header_end: Some(end), content_length })
            }
        },
        None => ScanStep::Continue(RequestScan { header_end: None, content_length }),
    }
}

/// The method, target and body of a request whose head ends at `end`:
/// its first line split at whitespace gives the method (empty if none) and
/// the target (`/` if none); the body is what follows the head, no longer
/// than announced, read as UTF-8.
pub open spec fn spec_parse_request(data: Seq<u8>, end: int, content_length: nat) -> Result<
    (Seq<char>, Seq<char>, Seq<char>),
    Seq<char>,
> {
    let lines = spec_lines(head_text(data, end));
    if lines.len() == 0 {
        Err("missing request line"@)
    } else {
        let parts = split_ws(lines[0]);
        let method = if parts.len() > 0 {
            parts[0]
        } else {
            seq![]
        };
        let target = if parts.len() > 1 {
            parts[1]
        } else {
            "/"@
        };
        let start = end + 4;
        let stop = start + if content_length <= data.len() - start {
            content_length as int
        } else {
            data.len() - start
        };
        Ok((method, target, utf8_lossy(data.subrange(start, stop))))
    }
}

/// The method, target and body of a request that has been read; a request
/// whose head never ended is refused.
pub fn parse_request(data: &[u8], scan: &RequestScan) -> (r: Result<(String, String, String), String>)
    requires
        match scan.header_end {
            Some(e) => e + 4 <= data@.len(),
            None => true,
        },
    ensures
        match scan.header_end {
            None => r matches Err(e) && e@ == "missing HTTP header"@,
            Some(end) => match spec_parse_request(data@, end as int, scan.content_length as nat) {
                Ok((m, t, b)) => r matches Ok((rm, rt, rb)) && rm@ == m && rt@ == t && rb@ == b,
                Err(e) => r matches Err(x) && x@ == e,
            },
        },
{
    proof {
        reveal_strlit("missing HTTP header");
        reveal_strlit("missing request line");
        reveal_strlit("/");
        reveal_strlit("");
    }
    let end = match scan.header_end {
        Some(end) => end,
        None => return Err(owned("missing HTTP header")),
    };
    let total = data.len();
    assert(end + 4 <= total);
    let head = head_bytes(data, end);
    let headers = from_utf8_lossy(&head);
    let hv = chars_of(headers.as_str());
    let lines = lines_of(&hv);
    if lines.len() == 0 {
        return Err(owned("missing request line"));
    }
    let first = chars_of(lines[0].as_str());
    let parts = split_whitespace_chars(&first);
    let method = if parts.len() > 0 {
        string_of(&chars_of(parts[0].as_str()))
    } else {
        String::new()
    };
    let target = if parts.len() > 1 {
        string_of(&chars_of(parts[1].as_str()))
    } else {
        owned("/")
    };
    let start = end + 4;
    let left = data.len() - start;
    let stop = if scan.content_length <= left {
        start + scan.content_length
    } else {
        data.len()
    };
    let mut body_bytes: Vec<u8> = Vec::new();
    let mut i: usize = start;
    while i < stop
        invariant
            start <= i <= stop <= data@.len(),
            body_bytes@ == data@.subrange(start as int, i as int),
        decreases stop - i,
    {
        body_bytes.push(data[i]);
        assert(body_bytes@ =~= data@.subrange(start as int, i + 1));
        i += 1;
    }
    let body = from_utf8_lossy(&body_bytes);
    Ok((method, target, body))
}

// ---------------------------------------------------------------------------
// The answer
// ---------------------------------------------------------------------------

/// The reason phrase of a status code the server answers with.
pub open spec fn spec_reason_phrase(status: u16) -> Seq<char> {
    if status == 200 {
        "OK"@
    } else if status == 204 {
        "No Content"@
    } else if status == 400 {
        "Bad Request"@
    } else if status == 404 {
        "Not Found"@
    } else if status == 405 {
        "Method Not Allowed"@
    } else {
        "Internal Server Error"@
    }
}

/// The reason phrase of a status code; any code not listed is a server
/// error.
pub fn reason_phrase(status: u16) -> (r: &'static str)
    ensures
        r@ == spec_reason_phrase(status),
{
    if status == 200 {
        "OK"
    } else if status == 204 {
        "No Content"
    } else if status == 400 {
        "Bad Request"
    } else if status == 404 {
        "Not Found"
    } else if status == 405 {
        "Method Not Allowed"
    } else {
        "Internal Server Error"
    }
}

/// The extra header lines, each ended by CRLF.
pub open spec fn header_lines(headers: Seq<Seq<char>>) -> Seq<char>
    decreases headers.len(),
{
    if headers.len() == 0 {
        seq![]
    } else {
        header_lines(headers.drop_last()) + headers.last() + "\r\n"@
    }
}

/// The head of an answer: the status line, the body length and type, the
/// security headers of the local server, the extra headers, and the blank
/// line.
pub open spec fn spec_response_head(status: u16, mime: Seq<char>, length: nat, headers: Seq<Seq<char>>) -> Seq<
    char,
> {
    "HTTP/1.1 "@ + decimal(status as nat) + " "@ + spec_reason_phrase(status) + "\r\nContent-Length: "@
        + decimal(length) + "\r\nContent-Type: "@ + mime
        + "\r\nCache-Control: no-store\r\nContent-Security-Policy: default-src 'self'; connect-src 'self'; img-src 'self' data:; style-src 'self'; script-src 'self'; base-uri 'none'; frame-ancestors 'none'\r\nCross-Origin-Resource-Policy: same-origin\r\nReferrer-Policy: no-referrer\r\nX-Content-Type-Options: nosniff\r\nConnection: close\r\n"@
        + header_lines(headers) + "\r\n"@
}

/// The head of an answer with `status`, a body of `length` bytes of type
/// `mime`, and the extra header lines.
pub fn response_head(status: u16, mime: &str, length: usize, headers: &Vec<String>) -> (r: String)
    ensures
        r@ == spec_response_head(status, mime@, length as nat, headers.deep_view()),
{
    let mut out = owned("HTTP/1.1 ");
    push_decimal(&mut out, status as u64);
    push_str(&mut out, " ");
    push_str(&mut out, reason_phrase(status));
    push_str(&mut out, "\r\nContent-Length: ");
    push_decimal(&mut out, length as u64);
    push_str(&mut out, "\r\nContent-Type: ");
    push_str(&mut out, mime);
    push_str(
        &mut out,
        "\r\nCache-Control: no-store\r\nContent-Security-Policy: default-src 'self'; connect-src 'self'; img-src 'self' data:; style-src 'self'; script-src 'self'; base-uri 'none'; frame-ancestors 'none'\r\nCross-Origin-Resource-Policy: same-origin\r\nReferrer-Policy: no-referrer\r\nX-Content-Type-Options: nosniff\r\nConnection: close\r\n",
    );
    let ghost start = out@;
    let ghost hv = headers.deep_view();
    let mut i: usize = 0;
    while i < headers.len()
        invariant
            i <= headers@.len(),
            hv == headers.deep_view(),
            out@ == start + header_lines(hv.take(i as int)),
        decreases headers@.len() - i,
    {
        assert(hv.take(i + 1).drop_last() =~= hv.take(i as int));
        push_str(&mut out, headers[i].as_str());
        push_str(&mut out, "\r\n");
        assert(out@ =~= start + header_lines(hv.take(i + 1)));
        i += 1;
    }
    assert(hv.take(headers@.len() as int) =~= hv);
    push_str(&mut out, "\r\n");
    assert(out@ =~= spec_response_head(status, mime@, length as nat, hv));
    out
}

} // verus!
