//! Serving browser-compatible media as it is: the HTTP `Range` header, the
//! response a request gets, and the reads that stream a byte range.
use vstd::prelude::*;

use crate::chunk_server::{content_range_header, content_range_text};
use crate::text::{decimal, push_decimal};

verus! {

/// Bytes read from the piece provider at a time.
pub const DIRECT_CHUNK_SIZE: u64 = 256 * 1024;

/// The value of an ASCII decimal digit character.
pub open spec fn digit_value(c: char) -> int {
    (c as int) - ('0' as int)
}

/// Whether a character is an ASCII decimal digit.
pub open spec fn is_digit(c: char) -> bool {
    '0' <= c <= '9'
}

/// The number written by a sequence of decimal digits.
pub open spec fn digits_value(s: Seq<char>) -> int
    decreases s.len(),
{
    if s.len() == 0 {
        0
    } else {
        digits_value(s.drop_last()) * 10 + digit_value(s.last())
    }
}

/// The text after an optional leading `+`.
pub open spec fn unsigned_part(s: Seq<char>) -> Seq<char> {
    if s.len() > 0 && s[0] == '+' { s.drop_first() } else { s }
}

/// Whether every character is a decimal digit.
pub open spec fn all_digits(s: Seq<char>) -> bool {
    forall|i: int| 0 <= i < s.len() ==> is_digit(#[trigger] s[i])
}

/// What reading a `u64` from text gives: an optional `+` sign followed by
/// one or more decimal digits whose value fits a `u64`; anything else is no number.
pub open spec fn parsed_u64(s: Seq<char>) -> Option<u64> {
    let body = unsigned_part(s);
    if body.len() > 0 && all_digits(body) && digits_value(body) <= u64::MAX {
        Some(digits_value(body) as u64)
    } else {
        None
    }
}

proof fn lemma_digits_value_grows(s: Seq<char>, c: char)
    requires
        forall|i: int| 0 <= i < s.len() ==> is_digit(#[trigger] s[i]),
        is_digit(c),
    ensures
        digits_value(s.push(c)) == digits_value(s) * 10 + digit_value(c),
        digits_value(s) >= 0,
        digits_value(s.push(c)) >= digits_value(s),
    decreases s.len(),
{
    assert(s.push(c).drop_last() =~= s);
    if s.len() > 0 {
        assert forall|i: int| 0 <= i < s.drop_last().len() implies is_digit(#[trigger] s.drop_last()[i]) by {
            assert(s.drop_last()[i] == s[i]);
        }
        lemma_digits_value_grows(s.drop_last(), s.last());
    }
}

/// Reads a `u64` written in decimal (see `parsed_u64`).
pub fn parse_u64(s: &[char]) -> (r: Option<u64>)
    ensures
        r == parsed_u64(s@),
{
    let n = s.len();
    let mut i: usize = 0;
    if n > 0 && s[0] == '+' {
        i = 1;
    }
    let ghost body = unsigned_part(s@);
    let start = i;
    if start >= n {
        proof {
            assert(body.len() == 0);
        }
        return None;
    }
    let mut value: u64 = 0;
    while i < n
        invariant
            start <= i <= n,
            n == s@.len(),
            start == 0 || start == 1,
            body == s@.subrange(start as int, n as int),
            body == unsigned_part(s@),
            forall|k: int| start <= k < i ==> is_digit(#[trigger] s@[k]),
            value == digits_value(s@.subrange(start as int, i as int)),
        decreases n - i,
    {
        let c = s[i];
        if !('0' <= c && c <= '9') {
            proof {
                assert(body[i - start] == c);
                assert(!is_digit(body[i - start]));
                assert(!all_digits(body));
            }
            return None;
        }
        let d: u64 = (c as u32 - '0' as u32) as u64;
        proof {
            let pre = s@.subrange(start as int, i as int);
            assert(s@.subrange(start as int, i + 1) =~= pre.push(c));
            assert forall|k: int| 0 <= k < pre.len() implies is_digit(#[trigger] pre[k]) by {
                assert(pre[k] == s@[start + k]);
            }
            lemma_digits_value_grows(pre, c);
        }
        if value > (u64::MAX - d) / 10 {
            proof {
                let pre = s@.subrange(start as int, i as int);
                assert(digits_value(pre.push(c)) > u64::MAX);
                // every further digit keeps the value at least this large
                lemma_digits_too_large(s@, start as int, i + 1, n as int);
                if all_digits(body) {
                    assert forall|k: int| start <= k < n implies is_digit(#[trigger] s@[k]) by {
                        assert(body[k - start] == s@[k]);
                    }
                    assert(digits_value(body) > u64::MAX);
                }
            }
            return None;
        }
        value = value * 10 + d;
        i = i + 1;
    }
    proof {
        assert(body =~= s@.subrange(start as int, n as int));
    }
    Some(value)
}

proof fn lemma_digits_too_large(s: Seq<char>, start: int, j: int, n: int)
    requires
        0 <= start < j <= n == s.len(),
        digits_value(s.subrange(start, j)) > u64::MAX,
    ensures
        (forall|k: int| start <= k < n ==> is_digit(#[trigger] s[k])) ==> digits_value(s.subrange(start, n)) > u64::MAX,
    decreases n - j,
{
    if j < n && (forall|k: int| start <= k < n ==> is_digit(#[trigger] s[k])) {
        let pre = s.subrange(start, j);
        assert(s.subrange(start, j + 1) =~= pre.push(s[j]));
        assert forall|k: int| 0 <= k < pre.len() implies is_digit(#[trigger] pre[k]) by {
            assert(pre[k] == s[start + k]);
        }
        lemma_digits_value_grows(pre, s[j]);
        lemma_digits_too_large(s, start, j + 1, n);
    }
}

/// The byte range a `Range` header value asks for: `bytes=` followed by
/// exactly two `-`-separated parts, a start and an optional end, each a
/// `u64`; anything else asks for no range.
pub open spec fn range_of_header(v: Seq<char>) -> Option<(u64, Option<u64>)> {
    if v.len() >= 6 && v.subrange(0, 6) == "bytes="@ {
        let rest = v.subrange(6, v.len() as int);
        if (exists|d: int| 0 <= d < rest.len() && rest[d] == '-'
            && forall|k: int| 0 <= k < rest.len() && k != d ==> #[trigger] rest[k] != '-') {
            let d = choose|d: int| 0 <= d < rest.len() && rest[d] == '-'
                && forall|k: int| 0 <= k < rest.len() && k != d ==> #[trigger] rest[k] != '-';
            let first = rest.subrange(0, d);
            let second = rest.subrange(d + 1, rest.len() as int);
            match parsed_u64(first) {
                Some(start) => if second.len() == 0 {
                    Some((start, None))
                } else {
                    match parsed_u64(second) {
                        Some(end) => Some((start, Some(end))),
                        None => None,
                    }
                },
                None => None,
            }
        } else {
            None
        }
    } else {
        None
    }
}

/// The response a request gets from a direct stream.
#[derive(Debug, Clone, Copy, PartialEq, Eq, Structural)]
pub enum DirectResponse {
    /// The whole file (200).
    Full { length: u64 },
    /// Bytes `start..=end` of the file (206).
    Partial { start: u64, end: u64, length: u64 },
    /// The range cannot be served (416).
    NotSatisfiable,
}

/// The response for a file of `file_size` bytes and the range asked for:
/// no range is the whole file; a range with no end runs to the last byte;
/// a range that starts or ends past the last byte, or ends before it
/// starts, cannot be served.
pub open spec fn response_for(file_size: u64, range: Option<(u64, Option<u64>)>) -> DirectResponse {
    match range {
        None => DirectResponse::Full { length: file_size },
        Some((start, end_opt)) => {
            let end: u64 = match end_opt {
                Some(e) => e,
                None => (file_size - 1) as u64,
            };
            if start >= file_size || end >= file_size || start > end {
                DirectResponse::NotSatisfiable
            } else {
                DirectResponse::Partial { start, end, length: (end - start + 1) as u64 }
            }
        },
    }
}

/// A direct stream producer over a piece provider handle.
pub struct DirectStreamProducer<P> {
    provider: P,
    content_type: String,
}

impl<P> DirectStreamProducer<P> {
    /// The provider of the bytes.
    pub closed spec fn spec_provider(&self) -> P {
        self.provider
    }

    /// The MIME type served.
    pub closed spec fn spec_content_type(&self) -> Seq<char> {
        self.content_type@
    }

    /// A producer serving the bytes of `provider` as `content_type`.
    pub fn new(provider: P, content_type: String) -> (r: DirectStreamProducer<P>)
        ensures
            r.spec_provider() == provider,
            r.spec_content_type() == content_type@,
    {
        DirectStreamProducer { provider, content_type }
    }

    /// The provider of the bytes.
    pub fn provider(&self) -> (p: &P)
        ensures
            *p == self.spec_provider(),
    {
        &self.provider
    }

    /// The MIME type served.
    pub fn content_type(&self) -> (s: &String)
        ensures
            s@ == self.spec_content_type(),
    {
        &self.content_type
    }

    /// The byte range that the value of a `Range` header asks for (see
    /// `range_of_header`); no header asks for none.
    pub fn parse_range_header(value: Option<&str>) -> (r: Option<(u64, Option<u64>)>)
        ensures
            value is None ==> r is None,
            value matches Some(v) ==> r == range_of_header(v@),
    {
        match value {
            None => None,
            Some(v) => parse_range_value(v),
        }
    }

    /// The response to a request for `range` of a file of `file_size` bytes
    /// (see `response_for`).
    pub fn plan_response(file_size: u64, range: Option<(u64, Option<u64>)>) -> (r: DirectResponse)
        requires
            range is Some ==> file_size > 0,
        ensures
            r == response_for(file_size, range),
    {
        match range {
            None => DirectResponse::Full { length: file_size },
            Some((start, end_opt)) => {
                let last = file_size - 1;
                let end = match end_opt {
                    Some(e) => e,
                    None => last,
                };
                if start >= file_size || end >= file_size || start > end {
                    DirectResponse::NotSatisfiable
                } else {
                    DirectResponse::Partial { start, end, length: end - start + 1 }
                }
            },
        }
    }
}

fn parse_range_value(v: &str) -> (r: Option<(u64, Option<u64>)>)
    ensures
        r == range_of_header(v@),
{
    let chars = chars_of(v);
    let n = chars.len();
    proof {
        reveal_strlit("bytes=");
    }
    if n < 6 {
        return None;
    }
    let prefix_ok = chars[0] == 'b' && chars[1] == 'y' && chars[2] == 't' && chars[3] == 'e' && chars[4] == 's' && chars[5] == '=';
    if !prefix_ok {
        proof {
            if v@.subrange(0, 6) == "bytes="@ {
                assert(v@.subrange(0, 6)[0] == 'b');
                assert(v@.subrange(0, 6)[1] == 'y');
                assert(v@.subrange(0, 6)[2] == 't');
                assert(v@.subrange(0, 6)[3] == 'e');
                assert(v@.subrange(0, 6)[4] == 's');
                assert(v@.subrange(0, 6)[5] == '=');
            }
        }
        return None;
    }
    proof {
        assert(v@.subrange(0, 6) =~= "bytes="@);
    }
    let ghost rest = v@.subrange(6, n as int);
    // find the dashes of the rest
    let mut dash: Option<usize> = None;
    let mut i: usize = 6;
    while i < n
        invariant
            6 <= i <= n,
            n == v@.len(),
            chars@ == v@,
            rest == v@.subrange(6, n as int),
            match dash {
                Some(d) => 6 <= d < i && v@[d as int] == '-'
                    && forall|k: int| 6 <= k < i && k != d ==> #[trigger] v@[k] != '-',
                None => forall|k: int| 6 <= k < i ==> #[trigger] v@[k] != '-',
            },
        decreases n - i,
    {
        if chars[i] == '-' {
            if dash.is_some() {
                proof {
                    let d = dash.unwrap();
                    assert forall|e: int| 0 <= e < rest.len() && rest[e] == '-' implies
                        !(forall|k: int| 0 <= k < rest.len() && k != e ==> #[trigger] rest[k] != '-') by {
                        if e == d - 6 {
                            assert(rest[i - 6] == '-');
                        } else {
                            assert(rest[d - 6] == '-');
                        }
                    }
                }
                return None;
            }
            dash = Some(i);
        }
        i = i + 1;
    }
    let d = match dash {
        None => {
            proof {
                assert forall|e: int| 0 <= e < rest.len() implies rest[e] != '-' by {
                    assert(rest[e] == v@[e + 6]);
                }
            }
            return None;
        },
        Some(d) => d,
    };
    proof {
        let dd = (d - 6) as int;
        assert(rest[dd] == '-');
        assert forall|k: int| 0 <= k < rest.len() && k != dd implies #[trigger] rest[k] != '-' by {
            assert(rest[k] == v@[k + 6]);
        }
        let c = choose|e: int| 0 <= e < rest.len() && rest[e] == '-'
            && forall|k: int| 0 <= k < rest.len() && k != e ==> #[trigger] rest[k] != '-';
        if c != dd {
            assert(rest[c] != '-');
        }
    }
    let first = slice_chars(&chars, 6, d);
    let second = slice_chars(&chars, d + 1, n);
    proof {
        assert(first@ =~= rest.subrange(0, d - 6));
        assert(second@ =~= rest.subrange(d - 6 + 1, rest.len() as int));
    }
    match parse_u64(first.as_slice()) {
        None => None,
        Some(start) => {
            if second.len() == 0 {
                Some((start, None))
            } else {
                match parse_u64(second.as_slice()) {
                    Some(end) => Some((start, Some(end))),
                    None => None,
                }
            }
        },
    }
}

fn chars_of(s: &str) -> (v: Vec<char>)
    ensures
        v@ == s@,
{
    let mut v: Vec<char> = Vec::new();
    let n = s.unicode_len();
    let mut i: usize = 0;
    while i < n
        invariant
            n == s@.len(),
            i <= n,
            v@ == s@.subrange(0, i as int),
        decreases n - i,
    {
        v.push(s.get_char(i));
        proof {
            assert(v@ =~= s@.subrange(0, i + 1));
        }
        i = i + 1;
    }
    proof {
        assert(v@ =~= s@);
    }
    v
}

fn slice_chars(v: &Vec<char>, from: usize, to: usize) -> (r: Vec<char>)
    requires
        from <= to <= v@.len(),
    ensures
        r@ == v@.subrange(from as int, to as int),
{
    let mut r: Vec<char> = Vec::new();
    let mut i: usize = from;
    while i < to
        invariant
            from <= i <= to <= v@.len(),
            r@ == v@.subrange(from as int, i as int),
        decreases to - i,
    {
        r.push(v[i]);
        proof {
            assert(r@ =~= v@.subrange(from as int, i + 1));
        }
        i = i + 1;
    }
    r
}

/// The `Content-Range` value of a 416 answer: `bytes */` and the file size.
pub fn unsatisfiable_range_header(file_size: u64) -> (s: String)
    ensures
        s@ == "bytes */"@ + decimal(file_size as nat),
{
    let mut s = String::new();
    s.append("bytes */");
    push_decimal(&mut s, file_size);
    s
}

/// The `Content-Range` value of a 206 answer (see `content_range_text`).
pub fn partial_range_header(start: u64, end: u64, file_size: u64) -> (s: String)
    ensures
        s@ == content_range_text(start as nat, end as nat, file_size as nat),
{
    content_range_header(start, end, file_size)
}

/// The next read of a streamed byte range of `length` bytes at `start`,
/// `offset` bytes into it: a chunk-sized read (the rest, if shorter), or
/// none once the whole range was read.
pub fn next_range_read(start: u64, length: u64, offset: u64) -> (r: Option<(u64, u64)>)
    requires
        start + length <= u64::MAX,
    ensures
        offset >= length ==> r is None,
        offset < length ==> r == Some((
            (start + offset) as u64,
            (if DIRECT_CHUNK_SIZE <= length - offset { DIRECT_CHUNK_SIZE } else { (length - offset) as u64 }),
        )),
{
    if offset >= length {
        return None;
    }
    let rest = length - offset;
    Some((start + offset, if DIRECT_CHUNK_SIZE <= rest { DIRECT_CHUNK_SIZE } else { rest }))
}

/// How a direct response answers its request: the whole file exactly when
/// no range is asked for; for a range `start..=end` (the end defaulting to
/// the last byte) that lies within the file, a partial response with that
/// start and end and `end - start + 1` bytes, whatever the start; a range
/// reaching past the file or reversed cannot be served.
pub proof fn law_direct_response_answers_the_range(file_size: u64, range: Option<(u64, Option<u64>)>)
    requires
        range is Some ==> file_size > 0,
    ensures
        (response_for(file_size, range) is Full) <==> range is None,
        range is None ==> response_for(file_size, range) == (DirectResponse::Full { length: file_size }),
        range matches Some((start, end_opt)) ==> {
            let end: int = match end_opt { Some(e) => e as int, None => file_size - 1 };
            &&& (start <= end && end < file_size) ==> response_for(file_size, range) == (DirectResponse::Partial {
                start,
                end: end as u64,
                length: (end - start + 1) as u64,
            })
            &&& !(start <= end && end < file_size) ==> response_for(file_size, range) is NotSatisfiable
        },
        response_for(file_size, range) matches DirectResponse::Partial { start, end, length } ==> {
            &&& start <= end < file_size
            &&& length == end - start + 1
        },
{
}

} // verus!
