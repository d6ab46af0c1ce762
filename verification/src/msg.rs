//! Text messages carried inside a frame payload.

use crate::json::{json_text, null_value, parse_value, value_text};
use crate::text::{
    chars_of, decimal, decimal_text, find, find_bytes, find_chars, is_digit, lemma_decimal_reads_back,
    lemma_find, lemma_find_is_first, lower_text, occurs_at, parse_number, parse_unsigned, same_chars,
    same_ignoring_case, skip_white, skip_white_from, split, split_chars, string_of, texts, utf8_text,
    white_space, word_end, word_end_from,
};
use vstd::prelude::*;
use vstd::slice::{slice_subrange, slice_to_vec};
use vstd::utf8::{
    decode_utf8, encode_scalar, encode_utf8, encode_utf8_decode_utf8, encode_utf8_valid_utf8,
    valid_utf8,
};

verus! {

#[derive(Debug, Clone, PartialEq, Eq)]
pub struct Response {
    pub code: u16,
    pub headers: Vec<(String, String)>,
    pub body: Vec<u8>,
}

/// A response with its texts as character sequences.
pub struct ResponseView {
    pub code: u16,
    pub headers: Seq<(Seq<char>, Seq<char>)>,
    pub body: Seq<u8>,
}

impl View for Response {
    type V = ResponseView;

    open spec fn view(&self) -> ResponseView {
        ResponseView { code: self.code, headers: pairs(self.headers@), body: self.body@ }
    }
}

/// Why some bytes are no response.
#[derive(Debug, Clone, PartialEq, Eq)]
pub enum MsgError {
    NoTerminator,
    NotText,
    EmptyStatus,
    BadVersion(String),
    NoCode,
    BadCode,
    BadHeader(String),
    BadLength { length: usize, body: usize },
}

/// A `MsgError` with its texts as character sequences.
pub enum MsgErrorView {
    NoTerminator,
    NotText,
    EmptyStatus,
    BadVersion(Seq<char>),
    NoCode,
    BadCode,
    BadHeader(Seq<char>),
    BadLength { length: nat, body: nat },
}

impl View for MsgError {
    type V = MsgErrorView;

    open spec fn view(&self) -> MsgErrorView {
        match self {
            MsgError::NoTerminator => MsgErrorView::NoTerminator,
            MsgError::NotText => MsgErrorView::NotText,
            MsgError::EmptyStatus => MsgErrorView::EmptyStatus,
            MsgError::BadVersion(version) => MsgErrorView::BadVersion(version@),
            MsgError::NoCode => MsgErrorView::NoCode,
            MsgError::BadCode => MsgErrorView::BadCode,
            MsgError::BadHeader(line) => MsgErrorView::BadHeader(line@),
            MsgError::BadLength { length, body } => MsgErrorView::BadLength {
                length: *length as nat,
                body: *body as nat,
            },
        }
    }
}

impl MsgErrorView {
    /// What the error says.
    pub open spec fn text(self) -> Seq<char> {
        match self {
            MsgErrorView::NoTerminator => "response has no header terminator"@,
            MsgErrorView::NotText => "response header is not text"@,
            MsgErrorView::EmptyStatus => "response status line is empty"@,
            MsgErrorView::BadVersion(version) => "unexpected response version "@ + version,
            MsgErrorView::NoCode => "response has no status code"@,
            MsgErrorView::BadCode => "status code is not a number"@,
            MsgErrorView::BadHeader(line) => "bad response header "@ + line,
            MsgErrorView::BadLength { length, body } => "ContentLength was "@ + decimal(length)
                + ", body is "@ + decimal(body) + " bytes"@,
        }
    }
}

impl MsgError {
    /// The error in words.
    pub fn message(&self) -> (r: String)
        ensures
            r@ == self@.text(),
    {
        match self {
            MsgError::NoTerminator => "response has no header terminator".to_owned(),
            MsgError::NotText => "response header is not text".to_owned(),
            MsgError::EmptyStatus => "response status line is empty".to_owned(),
            MsgError::BadVersion(version) => {
                let mut out: String = "unexpected response version ".to_owned();
                out.append(version.as_str());
                out
            },
            MsgError::NoCode => "response has no status code".to_owned(),
            MsgError::BadCode => "status code is not a number".to_owned(),
            MsgError::BadHeader(line) => {
                let mut out: String = "bad response header ".to_owned();
                out.append(line.as_str());
                out
            },
            MsgError::BadLength { length, body } => {
                let mut out: String = "ContentLength was ".to_owned();
                out.append(decimal_text(*length as u128).as_str());
                out.append(", body is ");
                out.append(decimal_text(*body as u128).as_str());
                out.append(" bytes");
                out
            },
        }
    }
}

/// A response body that is no JSON document, and what `serde_json` says about it.
#[derive(Debug, Clone, PartialEq, Eq)]
pub struct NotJson {
    pub words: String,
}

/// Names and values as character sequences.
pub open spec fn pairs(headers: Seq<(String, String)>) -> Seq<(Seq<char>, Seq<char>)> {
    headers.map_values(|h: (String, String)| (h.0@, h.1@))
}

/// The value of the first header whose name is `name` when the case of ASCII letters is left
/// aside.
pub open spec fn header_value(headers: Seq<(Seq<char>, Seq<char>)>, name: Seq<char>) -> Option<
    Seq<char>,
>
    decreases headers.len(),
{
    if headers.len() == 0 {
        None
    } else if lower_text(headers[0].0) == lower_text(name) {
        Some(headers[0].1)
    } else {
        header_value(headers.skip(1), name)
    }
}

/// A header is found by its name in any mix of upper and lower case.
pub proof fn law_header_name_in_any_case(
    headers: Seq<(Seq<char>, Seq<char>)>,
    name: Seq<char>,
    other: Seq<char>,
)
    requires
        lower_text(name) == lower_text(other),
    ensures
        header_value(headers, name) == header_value(headers, other),
    decreases headers.len(),
{
    if headers.len() > 0 {
        law_header_name_in_any_case(headers.skip(1), name, other);
    }
}

/// The value of the first header whose name is `name`, letter by letter.
pub open spec fn exact_header_value(
    headers: Seq<(Seq<char>, Seq<char>)>,
    name: Seq<char>,
) -> Option<Seq<char>>
    decreases headers.len(),
{
    if headers.len() == 0 {
        None
    } else if headers[0].0 == name {
        Some(headers[0].1)
    } else {
        exact_header_value(headers.skip(1), name)
    }
}

impl Response {
    /// The value of the first header called `name`. The case of ASCII letters does not matter.
    pub fn header(&self, name: &str) -> (r: Option<&str>)
        ensures
            match r {
                Some(value) => header_value(self@.headers, name@) == Some(value@),
                None => header_value(self@.headers, name@) is None,
            },
    {
        let mut i: usize = 0;
        let ghost all = pairs(self.headers@);
        assert(all.skip(0) =~= all);
        while i < self.headers.len()
            invariant
                i <= self.headers@.len(),
                all == pairs(self.headers@),
                header_value(all, name@) == header_value(all.skip(i as int), name@),
            decreases self.headers@.len() - i,
        {
            assert(all.skip(i as int)[0] == (self.headers@[i as int].0@, self.headers@[i as int].1@));
            if same_ignoring_case(self.headers[i].0.as_str(), name) {
                return Some(self.headers[i].1.as_str());
            }
            assert(all.skip(i as int).skip(1) =~= all.skip(i + 1));
            i += 1;
        }
        None
    }

    /// The document that the body spells. An empty body stands for `null`.
    pub fn json(&self) -> (r: Result<serde_json::Value, NotJson>)
        ensures
            self.body@.len() == 0 ==> r is Ok && value_text(r->Ok_0) == "null"@,
            self.body@.len() > 0 ==> match r {
                Ok(value) => json_text(self.body@) == Ok::<Seq<char>, Seq<char>>(
                    value_text(value),
                ),
                Err(error) => json_text(self.body@) == Err::<Seq<char>, Seq<char>>(error.words@),
            },
    {
        if self.body.len() == 0 {
            return Ok(null_value());
        }
        match parse_value(self.body.as_slice()) {
            Ok(value) => Ok(value),
            Err(words) => Err(NotJson { words }),
        }
    }
}

/// The headers that a caller adds, as the message writes them.
pub open spec fn extra_lines(extra: Seq<(Seq<char>, Seq<char>)>) -> Seq<char>
    decreases extra.len(),
{
    if extra.len() == 0 {
        seq![]
    } else {
        extra_lines(extra.drop_last()) + extra.last().0 + seq!['='] + extra.last().1 + "\r\n"@
    }
}

/// The two headers that describe a body of `len` bytes. A body without a type has none.
pub open spec fn content_lines(content_type: Seq<char>, len: nat) -> Seq<char> {
    if content_type.len() == 0 {
        seq![]
    } else {
        "ContentType="@ + content_type + "\r\n"@ + "ContentLength="@ + decimal(len) + "\r\n"@
    }
}

/// The text of a request up to its body.
pub open spec fn request_head(
    cmd: Seq<char>,
    seq: nat,
    date_ms: nat,
    extra: Seq<(Seq<char>, Seq<char>)>,
    content_type: Seq<char>,
    body: Option<Seq<u8>>,
) -> Seq<char> {
    "POST "@ + cmd + " 1\r\nSeqNumber="@ + decimal(seq) + "\r\nDate="@ + decimal(date_ms)
        + "\r\n"@ + (match body {
        Some(bytes) => content_lines(content_type, bytes.len()),
        None => seq![],
    }) + extra_lines(extra) + "\r\n"@
}

/// The bytes of a request.
pub open spec fn request_bytes(
    cmd: Seq<char>,
    seq: nat,
    date_ms: nat,
    extra: Seq<(Seq<char>, Seq<char>)>,
    content_type: Seq<char>,
    body: Option<Seq<u8>>,
) -> Seq<u8> {
    encode_utf8(request_head(cmd, seq, date_ms, extra, content_type, body)) + (match body {
        Some(bytes) => bytes,
        None => seq![],
    })
}

/// A body as a byte sequence.
pub open spec fn body_view(body: Option<&[u8]>) -> Option<Seq<u8>> {
    match body {
        Some(bytes) => Some(bytes@),
        None => None,
    }
}

/// The headers that a caller adds, as character sequences.
pub open spec fn extra_view(extra: Seq<(&str, String)>) -> Seq<(Seq<char>, Seq<char>)> {
    extra.map_values(|h: (&str, String)| (h.0@, h.1@))
}

/// A request whose body, if any, is JSON.
pub fn request(cmd: &str, seq: u32, date_ms: u128, body: Option<&[u8]>) -> (r: Vec<u8>)
    ensures
        r@ == request_bytes(
            cmd@,
            seq as nat,
            date_ms as nat,
            seq![],
            "json"@,
            body_view(body),
        ),
{
    request_typed(cmd, seq, date_ms, "json", body)
}

/// A request with a body of the given type.
pub fn request_typed(
    cmd: &str,
    seq: u32,
    date_ms: u128,
    content_type: &str,
    body: Option<&[u8]>,
) -> (r: Vec<u8>)
    ensures
        r@ == request_bytes(
            cmd@,
            seq as nat,
            date_ms as nat,
            seq![],
            content_type@,
            body_view(body),
        ),
{
    let none: Vec<(&str, String)> = Vec::new();
    let r: Vec<u8> = request_parts(cmd, seq, date_ms, none.as_slice(), content_type, body);
    assert(extra_view(none@) =~= Seq::<(Seq<char>, Seq<char>)>::empty());
    r
}

/// A request with headers of the caller's own and a body of the given type.
pub fn request_parts(
    cmd: &str,
    seq: u32,
    date_ms: u128,
    extra_headers: &[(&str, String)],
    content_type: &str,
    body: Option<&[u8]>,
) -> (r: Vec<u8>)
    ensures
        r@ == request_bytes(
            cmd@,
            seq as nat,
            date_ms as nat,
            extra_view(extra_headers@),
            content_type@,
            body_view(body),
        ),
{
    let mut text: String = "POST ".to_owned();
    text.append(cmd);
    text.append(" 1\r\nSeqNumber=");
    text.append(decimal_text(seq as u128).as_str());
    text.append("\r\nDate=");
    text.append(decimal_text(date_ms).as_str());
    text.append("\r\n");
    let ghost start = text@;
    let ghost content: Seq<char> = match body_view(body) {
        Some(bytes) => content_lines(content_type@, bytes.len()),
        None => seq![],
    };
    if let Some(bytes) = body {
        if !content_type.is_empty() {
            text.append("ContentType=");
            text.append(content_type);
            text.append("\r\n");
            text.append("ContentLength=");
            text.append(decimal_text(bytes.len() as u128).as_str());
            text.append("\r\n");
        }
    }
    assert(text@ =~= start + content);
    let ghost before = text@;
    let ghost extra = extra_view(extra_headers@);
    let mut i: usize = 0;
    assert(extra.take(0) =~= Seq::<(Seq<char>, Seq<char>)>::empty());
    assert(text@ =~= before + extra_lines(extra.take(0)));
    while i < extra_headers.len()
        invariant
            i <= extra_headers@.len(),
            extra == extra_view(extra_headers@),
            text@ == before + extra_lines(extra.take(i as int)),
        decreases extra_headers@.len() - i,
    {
        text.append(extra_headers[i].0);
        text.push('=');
        text.append(extra_headers[i].1.as_str());
        text.append("\r\n");
        proof {
            let longer = extra.take(i + 1);
            assert(longer.drop_last() =~= extra.take(i as int));
            assert(longer.last() == (extra_headers@[i as int].0@, extra_headers@[i as int].1@));
            assert(text@ =~= before + extra_lines(longer));
        }
        i += 1;
    }
    assert(extra.take(i as int) =~= extra);
    text.append("\r\n");
    let mut bytes: Vec<u8> = slice_to_vec(text.as_str().as_bytes());
    if let Some(body) = body {
        bytes.extend_from_slice(body);
    }
    proof {
        let head = request_head(
            cmd@,
            seq as nat,
            date_ms as nat,
            extra,
            content_type@,
            body_view(body),
        );
        assert(text@ =~= head);
        assert(bytes@ =~= request_bytes(
            cmd@,
            seq as nat,
            date_ms as nat,
            extra,
            content_type@,
            body_view(body),
        ));
    }
    bytes
}

/// What ends the head of a response.
pub open spec fn terminator() -> Seq<u8> {
    seq![13u8, 10u8, 13u8, 10u8]
}

/// What ends a line of the head.
pub open spec fn line_end() -> Seq<char> {
    seq!['\r', '\n']
}

/// Reads the status line: the version, which must be `1`, and the status code.
pub open spec fn status_code(line: Seq<char>) -> Result<u16, MsgErrorView> {
    let a = skip_white(line, 0);
    let b = word_end(line, a);
    let c = skip_white(line, b);
    let d = word_end(line, c);
    if a == line.len() {
        Err(MsgErrorView::EmptyStatus)
    } else if line.subrange(a, b) != seq!['1'] {
        Err(MsgErrorView::BadVersion(line.subrange(a, b)))
    } else if c == line.len() {
        Err(MsgErrorView::NoCode)
    } else {
        match parse_unsigned(line.subrange(c, d), 0xffff) {
            Some(code) => Ok(code as u16),
            None => Err(MsgErrorView::BadCode),
        }
    }
}

/// Reads header lines: name and value stand on the two sides of the first `=`.
pub open spec fn header_fields(lines: Seq<Seq<char>>) -> Result<
    Seq<(Seq<char>, Seq<char>)>,
    MsgErrorView,
>
    decreases lines.len(),
{
    if lines.len() == 0 {
        Ok(seq![])
    } else {
        match header_fields(lines.drop_last()) {
            Err(error) => Err(error),
            Ok(fields) => match find(lines.last(), seq!['='], 0) {
                Some(i) => Ok(fields.push((lines.last().take(i), lines.last().skip(i + 1)))),
                None => Err(MsgErrorView::BadHeader(lines.last())),
            },
        }
    }
}

/// The body length that the headers announce, where they announce a readable one.
pub open spec fn announced_length(headers: Seq<(Seq<char>, Seq<char>)>) -> Option<nat> {
    match exact_header_value(headers, "ContentLength"@) {
        Some(value) => parse_unsigned(value, usize::MAX as nat),
        None => None,
    }
}

/// Reads the lines of the head and holds the body to the length that they announce.
pub open spec fn parsed_lines(lines: Seq<Seq<char>>, body: Seq<u8>) -> Result<
    ResponseView,
    MsgErrorView,
> {
    match status_code(lines[0]) {
        Err(error) => Err(error),
        Ok(code) => match header_fields(lines.skip(1)) {
            Err(error) => Err(error),
            Ok(headers) => match announced_length(headers) {
                Some(length) => if length != body.len() {
                    Err(MsgErrorView::BadLength { length, body: body.len() })
                } else {
                    Ok(ResponseView { code, headers, body })
                },
                None => Ok(ResponseView { code, headers, body }),
            },
        },
    }
}

/// Reads a response: a head of text lines, an empty line, and the body.
pub open spec fn parsed(payload: Seq<u8>) -> Result<ResponseView, MsgErrorView> {
    match find(payload, terminator(), 0) {
        None => Err(MsgErrorView::NoTerminator),
        Some(end) => if !valid_utf8(payload.take(end)) {
            Err(MsgErrorView::NotText)
        } else {
            parsed_lines(
                split(decode_utf8(payload.take(end)), line_end()),
                payload.skip(end + 4),
            )
        },
    }
}

fn read_status(line: &[char]) -> (r: Result<u16, MsgError>)
    ensures
        match r {
            Ok(code) => status_code(line@) == Ok::<_, MsgErrorView>(code),
            Err(error) => status_code(line@) == Err::<u16, _>(error@),
        },
{
    let a: usize = skip_white_from(line, 0);
    if a == line.len() {
        return Err(MsgError::EmptyStatus);
    }
    let b: usize = word_end_from(line, a);
    let version: String = string_of(line, a, b);
    let one: Vec<char> = vec!['1'];
    if !same_chars(chars_of(version.as_str()).as_slice(), one.as_slice()) {
        assert(one@ =~= seq!['1']);
        return Err(MsgError::BadVersion(version));
    }
    assert(one@ =~= seq!['1']);
    let c: usize = skip_white_from(line, b);
    if c == line.len() {
        return Err(MsgError::NoCode);
    }
    let d: usize = word_end_from(line, c);
    match parse_number(line, c, d, 0xffff) {
        Some(code) => Ok(code as u16),
        None => Err(MsgError::BadCode),
    }
}

proof fn lemma_first_bad_header(lines: Seq<Seq<char>>, i: int)
    requires
        0 <= i <= lines.len(),
        header_fields(lines.take(i)) is Err,
    ensures
        header_fields(lines) == header_fields(lines.take(i)),
    decreases lines.len(),
{
    if i == lines.len() {
        assert(lines.take(i) =~= lines);
    } else {
        assert(lines.drop_last().take(i) =~= lines.take(i));
        lemma_first_bad_header(lines.drop_last(), i);
    }
}

fn read_headers(lines: &Vec<Vec<char>>) -> (r: Result<Vec<(String, String)>, MsgError>)
    requires
        lines@.len() > 0,
    ensures
        match r {
            Ok(headers) => header_fields(texts(lines@).skip(1)) == Ok::<_, MsgErrorView>(
                pairs(headers@),
            ),
            Err(error) => header_fields(texts(lines@).skip(1)) == Err::<
                Seq<(Seq<char>, Seq<char>)>,
                _,
            >(error@),
        },
{
    let equals: Vec<char> = vec!['='];
    let mut headers: Vec<(String, String)> = Vec::new();
    let ghost rows = texts(lines@).skip(1);
    let mut i: usize = 1;
    assert(rows.take(0) =~= Seq::<Seq<char>>::empty());
    assert(pairs(headers@) =~= Seq::<(Seq<char>, Seq<char>)>::empty());
    while i < lines.len()
        invariant
            1 <= i <= lines@.len(),
            equals@ == seq!['='],
            rows == texts(lines@).skip(1),
            header_fields(rows.take(i - 1)) == Ok::<_, MsgErrorView>(pairs(headers@)),
        decreases lines@.len() - i,
    {
        let ghost before = pairs(headers@);
        let ghost longer = rows.take(i as int);
        proof {
            assert(longer.drop_last() =~= rows.take(i - 1));
            assert(longer.last() == lines@[i as int]@);
            lemma_find(lines@[i as int]@, equals@, 0);
        }
        let line: &Vec<char> = &lines[i];
        let len: usize = line.len();
        match find_chars(line.as_slice(), equals.as_slice(), 0) {
            Some(at) => {
                let name: String = string_of(line.as_slice(), 0, at);
                let value: String = string_of(line.as_slice(), at + 1, len);
                proof {
                    assert(line@.subrange(0, at as int) =~= line@.take(at as int));
                    assert(line@.subrange(at + 1, line@.len() as int) =~= line@.skip(at + 1));
                }
                headers.push((name, value));
                assert(pairs(headers@) =~= before.push((name@, value@)));
            },
            None => {
                let whole: String = string_of(line.as_slice(), 0, len);
                proof {
                    assert(line@.subrange(0, len as int) =~= line@);
                    lemma_first_bad_header(rows, i as int);
                }
                return Err(MsgError::BadHeader(whole));
            },
        }
        i += 1;
    }
    assert(rows.take(i - 1) =~= rows);
    Ok(headers)
}

fn read_announced_length(headers: &Vec<(String, String)>) -> (r: Option<usize>)
    ensures
        match r {
            Some(length) => announced_length(pairs(headers@)) == Some(length as nat),
            None => announced_length(pairs(headers@)) is None,
        },
{
    let name: String = "ContentLength".to_owned();
    let ghost all = pairs(headers@);
    let mut i: usize = 0;
    assert(all.skip(0) =~= all);
    while i < headers.len()
        invariant
            i <= headers@.len(),
            name@ == "ContentLength"@,
            all == pairs(headers@),
            exact_header_value(all, name@) == exact_header_value(all.skip(i as int), name@),
        decreases headers@.len() - i,
    {
        assert(all.skip(i as int)[0] == (headers@[i as int].0@, headers@[i as int].1@));
        if headers[i].0 == name {
            let value: Vec<char> = chars_of(headers[i].1.as_str());
            assert(value@.subrange(0, value@.len() as int) =~= value@);
            return match parse_number(value.as_slice(), 0, value.len(), usize::MAX as u64) {
                Some(length) => Some(length as usize),
                None => None,
            };
        }
        assert(all.skip(i as int).skip(1) =~= all.skip(i + 1));
        i += 1;
    }
    None
}

/// Reads a response out of a frame's payload.
pub fn parse_response(payload: &[u8]) -> (r: Result<Response, MsgError>)
    ensures
        match r {
            Ok(response) => parsed(payload@) == Ok::<_, MsgErrorView>(response@),
            Err(error) => parsed(payload@) == Err::<ResponseView, _>(error@),
        },
{
    let len: usize = payload.len();
    let ending: Vec<u8> = vec![13, 10, 13, 10];
    assert(ending@ =~= terminator());
    let text_end: usize = match find_bytes(payload, ending.as_slice(), 0) {
        Some(end) => end,
        None => {
            return Err(MsgError::NoTerminator);
        },
    };
    let head_bytes: &[u8] = slice_subrange(payload, 0, text_end);
    assert(head_bytes@ =~= payload@.take(text_end as int));
    let head: &str = match utf8_text(head_bytes) {
        Some(head) => head,
        None => {
            return Err(MsgError::NotText);
        },
    };
    let crlf: Vec<char> = vec!['\r', '\n'];
    assert(crlf@ =~= line_end());
    let lines: Vec<Vec<char>> = split_chars(chars_of(head).as_slice(), crlf.as_slice());
    assert(texts(lines@)[0] == lines@[0]@);
    let code: u16 = match read_status(lines[0].as_slice()) {
        Ok(code) => code,
        Err(error) => {
            return Err(error);
        },
    };
    let headers: Vec<(String, String)> = match read_headers(&lines) {
        Ok(headers) => headers,
        Err(error) => {
            return Err(error);
        },
    };
    let body: Vec<u8> = slice_to_vec(slice_subrange(payload, text_end + 4, len));
    assert(body@ =~= payload@.skip(text_end + 4));
    if let Some(length) = read_announced_length(&headers) {
        if length != body.len() {
            return Err(MsgError::BadLength { length, body: body.len() });
        }
    }
    Ok(Response { code, headers, body })
}

/// The texts put together with a line end between every two.
pub open spec fn joined(lines: Seq<Seq<char>>) -> Seq<char>
    decreases lines.len(),
{
    if lines.len() == 0 {
        seq![]
    } else if lines.len() == 1 {
        lines[0]
    } else {
        lines[0] + line_end() + joined(lines.skip(1))
    }
}

/// The lines of the head that announces `code` and `headers`.
pub open spec fn response_lines(
    code: u16,
    headers: Seq<(Seq<char>, Seq<char>)>,
) -> Seq<Seq<char>> {
    seq![seq!['1', ' '] + decimal(code as nat)] + headers.map_values(
        |h: (Seq<char>, Seq<char>)| h.0 + seq!['='] + h.1,
    )
}

/// The bytes of a response, as the device writes it.
pub open spec fn response_bytes(response: ResponseView) -> Seq<u8> {
    encode_utf8(joined(response_lines(response.code, response.headers))) + terminator()
        + response.body
}

/// A response that its own text can carry: no carriage return in names and values, no `=` in
/// names, and no announced length other than that of the body.
pub open spec fn well_formed(response: ResponseView) -> bool {
    &&& forall|i: int|
        0 <= i < response.headers.len() ==> {
            &&& !(#[trigger] response.headers[i]).0.contains('\r')
            &&& !response.headers[i].0.contains('=')
            &&& !response.headers[i].1.contains('\r')
        }
    &&& announced_length(response.headers) matches Some(length) ==> length == response.body.len()
}

proof fn lemma_find_behind_plain(p: Seq<char>, c: char, rest: Seq<char>, needle: Seq<char>)
    requires
        !p.contains(c),
        needle.len() > 0,
        needle[0] == c,
    ensures
        find(p + needle + rest, needle, 0) == Some(p.len() as int),
{
    let all = p + needle + rest;
    assert(all.subrange(p.len() as int, (p.len() + needle.len()) as int) =~= needle);
    assert forall|j: int| 0 <= j < p.len() implies !#[trigger] occurs_at(all, needle, j) by {
        if occurs_at(all, needle, j) {
            assert(all.subrange(j, j + needle.len())[0] == all[j]);
            assert(all[j] == p[j]);
            assert(p.contains(p[j]));
        }
    }
    lemma_find_is_first(all, needle, 0, p.len() as int);
}

proof fn lemma_find_in_plain(p: Seq<char>, c: char, needle: Seq<char>)
    requires
        !p.contains(c),
        needle.len() > 0,
        needle[0] == c,
    ensures
        find(p, needle, 0) is None,
{
    lemma_find(p, needle, 0);
    if let Some(i) = find(p, needle, 0) {
        assert(p.subrange(i, i + needle.len())[0] == p[i]);
        assert(p.contains(p[i]));
    }
}

proof fn lemma_split_undoes_joined(lines: Seq<Seq<char>>)
    requires
        lines.len() > 0,
        forall|i: int| 0 <= i < lines.len() ==> !(#[trigger] lines[i]).contains('\r'),
    ensures
        split(joined(lines), line_end()) == lines,
    decreases lines.len(),
{
    let sep = line_end();
    if lines.len() == 1 {
        lemma_find_in_plain(lines[0], '\r', sep);
        assert(seq![lines[0]] =~= lines);
    } else {
        let rest = lines.skip(1);
        assert forall|i: int| 0 <= i < rest.len() implies !(#[trigger] rest[i]).contains(
            '\r',
        ) by {
            assert(rest[i] == lines[i + 1]);
        }
        lemma_split_undoes_joined(rest);
        lemma_find_behind_plain(lines[0], '\r', joined(rest), sep);
        let all = joined(lines);
        assert(all.take(lines[0].len() as int) =~= lines[0]);
        assert(all.skip((lines[0].len() + sep.len()) as int) =~= joined(rest));
        assert(seq![lines[0]] + rest =~= lines);
    }
}

proof fn lemma_decimal_is_plain(n: nat)
    ensures
        !decimal(n).contains('\r'),
        forall|i: int| 0 <= i < decimal(n).len() ==> !white_space(#[trigger] decimal(n)[i]),
        decimal(n).len() > 0,
        decimal(n)[0] != '+',
{
    lemma_decimal_reads_back(n, n);
    assert forall|i: int| 0 <= i < decimal(n).len() implies !white_space(
        #[trigger] decimal(n)[i],
    ) by {
        assert(is_digit(decimal(n)[i]));
    }
    if decimal(n).contains('\r') {
        let i = choose|i: int| 0 <= i < decimal(n).len() && decimal(n)[i] == '\r';
        assert(is_digit(decimal(n)[i]));
    }
    assert(is_digit(decimal(n)[0]));
}

proof fn lemma_word_end_of_plain(s: Seq<char>, i: int)
    requires
        0 <= i <= s.len(),
        forall|j: int| i <= j < s.len() ==> !white_space(#[trigger] s[j]),
    ensures
        word_end(s, i) == s.len(),
    decreases s.len() - i,
{
    if i < s.len() {
        lemma_word_end_of_plain(s, i + 1);
    }
}

proof fn lemma_status_reads_back(code: u16)
    ensures
        status_code(seq!['1', ' '] + decimal(code as nat)) == Ok::<_, MsgErrorView>(code),
{
    let d = decimal(code as nat);
    let line = seq!['1', ' '] + d;
    lemma_decimal_is_plain(code as nat);
    lemma_decimal_reads_back(code as nat, 0xffff);
    assert(line[0] == '1' && line[1] == ' ');
    assert(skip_white(line, 0) == 0);
    assert(word_end(line, 1) == 1);
    assert(word_end(line, 0) == 1);
    assert(line[2] == d[0]);
    assert(skip_white(line, 2) == 2);
    assert(skip_white(line, 1) == 2);
    assert forall|j: int| 2 <= j < line.len() implies !white_space(#[trigger] line[j]) by {
        assert(line[j] == d[j - 2]);
    }
    lemma_word_end_of_plain(line, 2);
    assert(line.subrange(0, 1) =~= seq!['1']);
    assert(line.subrange(2, line.len() as int) =~= d);
}

proof fn lemma_headers_read_back(headers: Seq<(Seq<char>, Seq<char>)>)
    requires
        forall|i: int| 0 <= i < headers.len() ==> !(#[trigger] headers[i]).0.contains('='),
    ensures
        header_fields(
            headers.map_values(|h: (Seq<char>, Seq<char>)| h.0 + seq!['='] + h.1),
        ) == Ok::<_, MsgErrorView>(headers),
    decreases headers.len(),
{
    let lines = headers.map_values(|h: (Seq<char>, Seq<char>)| h.0 + seq!['='] + h.1);
    if headers.len() > 0 {
        let shorter = headers.drop_last();
        assert forall|i: int| 0 <= i < shorter.len() implies !(#[trigger] shorter[i]).0.contains(
            '=',
        ) by {
            assert(shorter[i] == headers[i]);
        }
        lemma_headers_read_back(shorter);
        assert(lines.drop_last() =~= shorter.map_values(
            |h: (Seq<char>, Seq<char>)| h.0 + seq!['='] + h.1,
        ));
        let h = headers.last();
        assert(h == headers[headers.len() - 1]);
        lemma_find_behind_plain(h.0, '=', h.1, seq!['=']);
        assert(lines.last().take(h.0.len() as int) =~= h.0);
        assert(lines.last().skip(h.0.len() as int + 1) =~= h.1);
        assert(shorter.push(h) =~= headers);
    } else {
        assert(headers =~= Seq::<(Seq<char>, Seq<char>)>::empty());
    }
}

/// Every carriage return begins a line end, and behind the line end stands something else.
spec fn short_breaks(s: Seq<char>) -> bool {
    forall|i: int|
        0 <= i < s.len() && #[trigger] s[i] == '\r' ==> i + 2 < s.len() && s[i + 2] != '\r'
}

proof fn lemma_first_byte(c: char)
    ensures
        encode_scalar(c as u32).len() >= 1,
        forall|i: int|
            0 <= i < encode_scalar(c as u32).len() ==> (#[trigger] encode_scalar(c as u32)[i]
                == 13u8 ==> c == '\r'),
        c == '\r' ==> encode_scalar(c as u32).len() == 1,
        c == '\n' ==> encode_scalar(c as u32).len() == 1,
{
    let u = c as u32;
    assert(u <= 0x7f ==> (u & 0x7f) as u8 as u32 == u) by (bit_vector);
    assert((0xC0 | ((u >> 6) & 0x1F) as u8) >= 0xC0u8) by (bit_vector);
    assert((0xE0 | ((u >> 12) & 0x0F) as u8) >= 0xE0u8) by (bit_vector);
    assert((0xF0 | ((u >> 18) & 0x7) as u8) >= 0xF0u8) by (bit_vector);
    assert((0x80 | (u & 0x3F) as u8) >= 0x80u8) by (bit_vector);
    assert((0x80 | ((u >> 6) & 0x3F) as u8) >= 0x80u8) by (bit_vector);
    assert((0x80 | ((u >> 12) & 0x3F) as u8) >= 0x80u8) by (bit_vector);
}

proof fn lemma_no_early_terminator(s: Seq<char>, tail: Seq<u8>, j: int)
    requires
        short_breaks(s),
        0 <= j < encode_utf8(s).len(),
    ensures
        !occurs_at(encode_utf8(s) + tail, terminator(), j),
    decreases s.len(),
{
    let all = encode_utf8(s) + tail;
    if s.len() > 0 {
        let first = encode_scalar(s[0] as u32);
        let rest = s.skip(1);
        assert(rest =~= s.drop_first());
        assert(all =~= first + (encode_utf8(rest) + tail));
        lemma_first_byte(s[0]);
        if j >= first.len() {
            assert forall|i: int| 0 <= i < rest.len() && #[trigger] rest[i] == '\r' implies i + 2
                < rest.len() && rest[i + 2] != '\r' by {
                assert(s[i + 1] == '\r');
            }
            lemma_no_early_terminator(rest, tail, j - first.len());
            if occurs_at(all, terminator(), j) {
                assert((encode_utf8(rest) + tail).subrange(
                    j - first.len(),
                    j - first.len() + 4,
                ) =~= all.subrange(j, j + 4));
            }
        } else if occurs_at(all, terminator(), j) {
            let window = all.subrange(j, j + 4);
            assert(window[0] == all[j] && all[j] == first[j]);
            assert(s[0] == '\r');
            let second = encode_scalar(s[1] as u32);
            let third = encode_scalar(s[2] as u32);
            let tail3 = encode_utf8(rest.drop_first().drop_first()) + tail;
            assert(rest[0] == s[1] && rest.drop_first()[0] == s[2]);
            assert(encode_utf8(rest) == second + encode_utf8(rest.drop_first()));
            assert(encode_utf8(rest.drop_first()) == third + encode_utf8(
                rest.drop_first().drop_first(),
            ));
            assert(all =~= first + (second + (third + tail3)));
            lemma_first_byte(s[1]);
            lemma_first_byte(s[2]);
            assert(window[1] == all[1] && all[1] == second[0]);
            assert(window[2] == all[2]);
            if second.len() == 1 {
                assert(all[2] == third[0]);
            } else {
                assert(all[2] == second[1]);
                lemma_only_ascii_is_short(s[1]);
            }
        }
    }
}

proof fn lemma_only_ascii_is_short(c: char)
    requires
        encode_scalar(c as u32).len() > 1,
    ensures
        forall|i: int| 0 <= i < encode_scalar(c as u32).len() ==> #[trigger] encode_scalar(c as u32)[i] >= 0x80,
{
    let u = c as u32;
    assert((0xC0 | ((u >> 6) & 0x1F) as u8) >= 0xC0u8) by (bit_vector);
    assert((0xE0 | ((u >> 12) & 0x0F) as u8) >= 0xE0u8) by (bit_vector);
    assert((0xF0 | ((u >> 18) & 0x7) as u8) >= 0xF0u8) by (bit_vector);
    assert((0x80 | (u & 0x3F) as u8) >= 0x80u8) by (bit_vector);
    assert((0x80 | ((u >> 6) & 0x3F) as u8) >= 0x80u8) by (bit_vector);
    assert((0x80 | ((u >> 12) & 0x3F) as u8) >= 0x80u8) by (bit_vector);
}

proof fn lemma_joined_has_short_breaks(lines: Seq<Seq<char>>)
    requires
        lines.len() > 0,
        forall|i: int| 0 <= i < lines.len() ==> !(#[trigger] lines[i]).contains('\r'),
        forall|i: int| 0 <= i < lines.len() ==> (#[trigger] lines[i]).len() > 0,
    ensures
        short_breaks(joined(lines)),
        joined(lines).len() > 0,
        joined(lines)[0] != '\r',
    decreases lines.len(),
{
    assert(lines[0].contains(lines[0][0]));
    let all = joined(lines);
    if lines.len() == 1 {
        assert forall|i: int| 0 <= i < all.len() && #[trigger] all[i] == '\r' implies i + 2
            < all.len() && all[i + 2] != '\r' by {
            assert(lines[0].contains(lines[0][i]));
        }
    } else {
        let rest = lines.skip(1);
        assert forall|i: int| 0 <= i < rest.len() implies !(#[trigger] rest[i]).contains('\r')
            && rest[i].len() > 0 by {
            assert(rest[i] == lines[i + 1]);
        }
        lemma_joined_has_short_breaks(rest);
        let n = lines[0].len() as int;
        assert forall|i: int| 0 <= i < all.len() && #[trigger] all[i] == '\r' implies i + 2
            < all.len() && all[i + 2] != '\r' by {
            if i < n {
                assert(all[i] == lines[0][i]);
                assert(lines[0].contains(lines[0][i]));
            } else if i == n {
                assert(all[n + 2] == joined(rest)[0]);
            } else if i == n + 1 {
                assert(all[i] == '\n');
            } else {
                assert(all[i] == joined(rest)[i - n - 2]);
                assert(all[i + 2] == joined(rest)[i - n]);
            }
        }
    }
}

/// What the device writes is what is read: a response reads back with its code, its headers in
/// order and its body.
pub proof fn law_response_reads_back(response: ResponseView)
    requires
        well_formed(response),
    ensures
        parsed(response_bytes(response)) == Ok::<_, MsgErrorView>(response),
{
    let lines = response_lines(response.code, response.headers);
    let rows = response.headers.map_values(|h: (Seq<char>, Seq<char>)| h.0 + seq!['='] + h.1);
    lemma_decimal_is_plain(response.code as nat);
    assert forall|i: int| 0 <= i < lines.len() implies !(#[trigger] lines[i]).contains('\r')
        && lines[i].len() > 0 by {
        if lines[i].contains('\r') {
            let k = choose|k: int| 0 <= k < lines[i].len() && lines[i][k] == '\r';
            if i == 0 {
                if k >= 2 {
                    assert(decimal(response.code as nat).contains(lines[0][k]));
                }
            } else {
                let h = response.headers[i - 1];
                assert(lines[i] == h.0 + seq!['='] + h.1);
                if k < h.0.len() {
                    assert(h.0.contains(h.0[k]));
                } else if k > h.0.len() {
                    assert(h.1.contains(h.1[k - h.0.len() - 1]));
                }
            }
        }
        if i > 0 {
            let h = response.headers[i - 1];
            assert(lines[i] == h.0 + seq!['='] + h.1);
        }
    }
    let head = joined(lines);
    let payload = response_bytes(response);
    let end = encode_utf8(head).len() as int;
    let tail = terminator() + response.body;
    assert(payload =~= encode_utf8(head) + tail);
    lemma_joined_has_short_breaks(lines);
    assert forall|j: int| 0 <= j < end implies !#[trigger] occurs_at(payload, terminator(), j) by {
        lemma_no_early_terminator(head, tail, j);
    }
    assert(payload.subrange(end, end + 4) =~= terminator());
    lemma_find_is_first(payload, terminator(), 0, end);
    assert(payload.take(end) =~= encode_utf8(head));
    encode_utf8_valid_utf8(head);
    encode_utf8_decode_utf8(head);
    assert(payload.skip(end + 4) =~= response.body);
    lemma_split_undoes_joined(lines);
    lemma_status_reads_back(response.code);
    assert(lines.skip(1) =~= rows);
    assert forall|i: int| 0 <= i < response.headers.len() implies !(
    #[trigger] response.headers[i]).0.contains('=') by {}
    lemma_headers_read_back(response.headers);
}

proof fn lemma_first_header(
    headers: Seq<(Seq<char>, Seq<char>)>,
    name: Seq<char>,
    k: int,
)
    requires
        0 <= k <= headers.len(),
    ensures
        (forall|i: int| 0 <= i < k ==> lower_text(#[trigger] headers[i].0) != lower_text(name))
            && (k < headers.len() ==> lower_text(headers[k].0) == lower_text(name)) ==> header_value(
            headers,
            name,
        ) == if k < headers.len() {
            Some(headers[k].1)
        } else {
            None
        },
        (forall|i: int| 0 <= i < k ==> (#[trigger] headers[i]).0 != name) && (k < headers.len()
            ==> headers[k].0 == name) ==> exact_header_value(headers, name) == if k
            < headers.len() {
            Some(headers[k].1)
        } else {
            None
        },
    decreases headers.len(),
{
    if headers.len() > 0 && k > 0 {
        let rest = headers.skip(1);
        lemma_first_header(rest, name, k - 1);
        if forall|i: int| 0 <= i < k ==> lower_text(#[trigger] headers[i].0) != lower_text(name) {
            assert(lower_text(headers[0].0) != lower_text(name));
            assert forall|i: int| 0 <= i < k - 1 implies lower_text(#[trigger] rest[i].0)
                != lower_text(name) by {
                assert(rest[i] == headers[i + 1]);
                assert(lower_text(headers[i + 1].0) != lower_text(name));
            }
        }
        if forall|i: int| 0 <= i < k ==> (#[trigger] headers[i]).0 != name {
            assert(headers[0].0 != name);
            assert forall|i: int| 0 <= i < k - 1 implies (#[trigger] rest[i]).0 != name by {
                assert(rest[i] == headers[i + 1]);
            }
        }
    }
}

/// The header that is found is the first of its name, upper and lower case aside; without one of
/// that name there is none.
pub proof fn law_first_header_of_a_name_counts(
    response: &Response,
    name: &str,
    k: int,
    r: Option<&str>,
)
    requires
        call_ensures(Response::header, (response, name), r),
        0 <= k <= response.headers@.len(),
        forall|i: int|
            0 <= i < k ==> lower_text((#[trigger] response.headers@[i]).0@) != lower_text(name@),
        k < response.headers@.len() ==> lower_text(response.headers@[k].0@) == lower_text(name@),
    ensures
        k == response.headers@.len() ==> r is None,
        k < response.headers@.len() ==> (r matches Some(value) && value@
            == response.headers@[k].1@),
{
    let all = pairs(response.headers@);
    assert forall|i: int| 0 <= i < k implies lower_text(#[trigger] all[i].0) != lower_text(
        name@,
    ) by {
        assert(lower_text(response.headers@[i].0@) != lower_text(name@));
    }
    lemma_first_header(all, name@, k);
}

proof fn lemma_extra_lines_are_flat(extra: Seq<(Seq<char>, Seq<char>)>)
    ensures
        extra_lines(extra) == extra.map_values(
            |h: (Seq<char>, Seq<char>)| h.0 + seq!['='] + h.1 + seq!['\r', '\n'],
        ).flatten(),
    decreases extra.len(),
{
    let f = |h: (Seq<char>, Seq<char>)| h.0 + seq!['='] + h.1 + seq!['\r', '\n'];
    let m = extra.map_values(f);
    reveal_strlit("\r\n");
    assert("\r\n"@ =~= seq!['\r', '\n']);
    if extra.len() > 0 {
        lemma_extra_lines_are_flat(extra.drop_last());
        assert(m.drop_last() =~= extra.drop_last().map_values(f));
        m.lemma_flatten_and_flatten_alt_are_equivalent();
        m.drop_last().lemma_flatten_and_flatten_alt_are_equivalent();
        assert(m.last() == f(extra.last()));
        assert(extra_lines(extra) =~= m.drop_last().flatten() + m.last());
    }
}

/// A request is these lines, each ended by carriage return and line feed, an empty line, and the
/// body: the command, its number, its date, type and length of a body that has a type, and the
/// headers of the caller in order.
#[verifier::spinoff_prover]
#[verifier::rlimit(40)]
pub proof fn law_request_is_made_of_lines(
    cmd: &str,
    seq: u32,
    date_ms: u128,
    extra: &[(&str, String)],
    content_type: &str,
    body: Option<&[u8]>,
    r: Vec<u8>,
    typed: Vec<u8>,
    plain: Vec<u8>,
    none: &[(&str, String)],
    untyped: Vec<u8>,
)
    requires
        call_ensures(request_parts, (cmd, seq, date_ms, extra, content_type, body), r),
        call_ensures(request_parts, (cmd, seq, date_ms, none, content_type, body), untyped),
        call_ensures(request_typed, (cmd, seq, date_ms, content_type, body), typed),
        call_ensures(request, (cmd, seq, date_ms, body), plain),
        none@.len() == 0,
    ensures
        ({
            let end = seq!['\r', '\n'];
            let head = seq!["POST "@ + cmd@ + " 1"@, "SeqNumber="@ + decimal(seq as nat)].push(
                "Date="@ + decimal(date_ms as nat),
            );
            let content = match body {
                Some(bytes) => if content_type@.len() > 0 {
                    seq![
                        "ContentType="@ + content_type@,
                        "ContentLength="@ + decimal(bytes@.len()),
                    ]
                } else {
                    seq![]
                },
                None => seq![],
            };
            let own = Seq::new(extra@.len(), |i: int| extra@[i].0@ + seq!['='] + extra@[i].1@);
            let rows = (head + content + own).push(seq![]);
            r@ == encode_utf8(rows.map_values(|row: Seq<char>| row + end).flatten()) + (match body {
                Some(bytes) => bytes@,
                None => seq![],
            })
        }),
        typed@ == untyped@,
        content_type@ == "json"@ ==> plain@ == typed@,
{
    let end = seq!['\r', '\n'];
    reveal_strlit("\r\n");
    reveal_strlit(" 1\r\nSeqNumber=");
    reveal_strlit("\r\nDate=");
    reveal_strlit(" 1");
    reveal_strlit("SeqNumber=");
    reveal_strlit("Date=");
    assert("\r\n"@ =~= end);
    assert(" 1\r\nSeqNumber="@ =~= " 1"@ + end + "SeqNumber="@);
    assert("\r\nDate="@ =~= end + "Date="@);
    let first = "POST "@ + cmd@ + " 1"@;
    let second = "SeqNumber="@ + decimal(seq as nat);
    let third = "Date="@ + decimal(date_ms as nat);
    let head = seq![first, second].push(third);
    let content = match body {
        Some(bytes) => if content_type@.len() > 0 {
            seq!["ContentType="@ + content_type@, "ContentLength="@ + decimal(bytes@.len())]
        } else {
            seq![]
        },
        None => seq![],
    };
    let own = Seq::new(extra@.len(), |i: int| extra@[i].0@ + seq!['='] + extra@[i].1@);
    let rows = (head + content + own).push(seq![]);
    let f = |row: Seq<char>| row + end;
    let view = extra_view(extra@);
    lemma_extra_lines_are_flat(view);
    assert(own.map_values(f) =~= view.map_values(
        |h: (Seq<char>, Seq<char>)| h.0 + seq!['='] + h.1 + seq!['\r', '\n'],
    ));
    let blank = seq![Seq::<char>::empty()];
    assert(rows =~= head + content + own + blank);
    assert(rows.map_values(f) =~= head.map_values(f) + content.map_values(f) + own.map_values(f)
        + blank.map_values(f));
    lemma_flat_sum(
        head.map_values(f) + content.map_values(f) + own.map_values(f),
        blank.map_values(f),
    );
    lemma_flat_sum(head.map_values(f) + content.map_values(f), own.map_values(f));
    lemma_flat_sum(head.map_values(f), content.map_values(f));
    assert(head.map_values(f) =~= seq![first + end, second + end] + seq![third + end]);
    lemma_flat_sum(seq![first + end, second + end], seq![third + end]);
    lemma_flat_two(first + end, second + end);
    lemma_flat_one(third + end);
    lemma_flat_one(Seq::<char>::empty() + end);
    assert(blank.map_values(f) =~= seq![Seq::<char>::empty() + end]);
    if body is Some && content_type@.len() > 0 {
        let a = "ContentType="@ + content_type@ + end;
        let b = "ContentLength="@ + decimal(body->0@.len()) + end;
        assert(content.map_values(f) =~= seq![a, b]);
        lemma_flat_two(a, b);
        assert(content_lines(content_type@, body->0@.len()) =~= a + b);
    } else {
        assert(content.map_values(f).flatten() =~= Seq::<char>::empty());
    }
    assert(request_head(
        cmd@,
        seq as nat,
        date_ms as nat,
        view,
        content_type@,
        body_view(body),
    ) =~= rows.map_values(f).flatten());
    assert(extra_view(none@) =~= Seq::<(Seq<char>, Seq<char>)>::empty());
}

proof fn lemma_flat_one(a: Seq<char>)
    ensures
        seq![a].flatten() == a,
{
    let s = seq![a];
    assert(s.flatten() == s.first() + s.drop_first().flatten());
    assert(s.drop_first().len() == 0);
    assert(s.flatten() =~= a);
}

proof fn lemma_flat_two(a: Seq<char>, b: Seq<char>)
    ensures
        seq![a, b].flatten() == a + b,
{
    let s = seq![a, b];
    assert(s.flatten() == s.first() + s.drop_first().flatten());
    assert(s.drop_first() =~= seq![b]);
    lemma_flat_one(b);
}

proof fn lemma_flat_sum(a: Seq<Seq<char>>, b: Seq<Seq<char>>)
    ensures
        (a + b).flatten() == a.flatten() + b.flatten(),
    decreases a.len(),
{
    if a.len() == 0 {
        assert(a + b =~= b);
        assert(a.flatten() + b.flatten() =~= b.flatten());
    } else {
        lemma_flat_sum(a.drop_first(), b);
        assert((a + b).drop_first() =~= a.drop_first() + b);
        assert((a + b).flatten() =~= a.flatten() + b.flatten());
    }
}

proof fn lemma_word_stop(s: Seq<char>, i: int, e: int)
    requires
        0 <= i <= e <= s.len(),
    ensures
        (forall|k: int| i <= k < e ==> white_space(#[trigger] s[k])) && (e < s.len()
            ==> !white_space(s[e])) ==> skip_white(s, i) == e,
        (forall|k: int| i <= k < e ==> !white_space(#[trigger] s[k])) && (e < s.len()
            ==> white_space(s[e])) ==> word_end(s, i) == e,
    decreases e - i,
{
    if i < e {
        lemma_word_stop(s, i + 1, e);
        if forall|k: int| i <= k < e ==> white_space(#[trigger] s[k]) {
            assert(white_space(s[i]));
        }
        if forall|k: int| i <= k < e ==> !white_space(#[trigger] s[k]) {
            assert(!white_space(s[i]));
        }
    }
}

/// Every character is white space.
pub open spec fn is_blank(s: Seq<char>) -> bool {
    forall|i: int| 0 <= i < s.len() ==> white_space(#[trigger] s[i])
}

/// There is a character, and none is white space.
pub open spec fn is_word(s: Seq<char>) -> bool {
    s.len() > 0 && forall|i: int| 0 <= i < s.len() ==> !white_space(#[trigger] s[i])
}

/// The first word of a status line is the version, which is 1, and the second is the status code,
/// a number that fits 16 bits. What follows makes no difference.
pub proof fn law_status_line_is_version_and_code(
    lead: Seq<char>,
    version: Seq<char>,
    gap: Seq<char>,
    code: Seq<char>,
    rest: Seq<char>,
)
    requires
        is_blank(lead),
        is_word(version),
        is_blank(gap) && gap.len() > 0,
        is_word(code),
        rest.len() > 0 ==> white_space(rest[0]),
    ensures
        status_code(lead) == Err::<u16, _>(MsgErrorView::EmptyStatus),
        version != seq!['1'] ==> status_code(lead + version + gap + code + rest) == Err::<u16, _>(
            MsgErrorView::BadVersion(version),
        ) && status_code(lead + version) == Err::<u16, _>(MsgErrorView::BadVersion(version)),
        version == seq!['1'] ==> status_code(lead + version) == Err::<u16, _>(MsgErrorView::NoCode)
            && status_code(lead + version + gap) == Err::<u16, _>(MsgErrorView::NoCode),
        version == seq!['1'] ==> match status_code(lead + version + gap + code + rest) {
            Ok(n) => parse_unsigned(code, 65535) == Some(n as nat),
            Err(error) => error == MsgErrorView::BadCode && parse_unsigned(code, 65535) is None,
        },
{
    let a = lead.len() as int;
    let b = a + version.len();
    let c = b + gap.len();
    let d = c + code.len();
    lemma_word_stop(lead, 0, a);
    lemma_status_words(lead + version, lead, version, Seq::empty(), Seq::empty(), Seq::empty());
    lemma_status_words(lead + version + gap, lead, version, gap, Seq::empty(), Seq::empty());
    lemma_status_words(lead + version + gap + code + rest, lead, version, gap, code, rest);
}

proof fn lemma_status_words(
    line: Seq<char>,
    lead: Seq<char>,
    version: Seq<char>,
    gap: Seq<char>,
    code: Seq<char>,
    rest: Seq<char>,
)
    requires
        line == lead + version + gap + code + rest || (code.len() == 0 && rest.len() == 0 && line
            == lead + version + gap) || (gap.len() == 0 && code.len() == 0 && rest.len() == 0
            && line == lead + version),
        is_blank(lead),
        is_word(version),
        is_blank(gap),
        code.len() > 0 ==> is_word(code) && gap.len() > 0,
        code.len() == 0 ==> rest.len() == 0,
        rest.len() > 0 ==> white_space(rest[0]),
    ensures
        skip_white(line, 0) == lead.len(),
        lead.len() < line.len(),
        word_end(line, lead.len() as int) == lead.len() + version.len(),
        line.subrange(lead.len() as int, (lead.len() + version.len()) as int) == version,
        skip_white(line, (lead.len() + version.len()) as int) == lead.len() + version.len()
            + gap.len(),
        code.len() == 0 ==> line.len() == lead.len() + version.len() + gap.len(),
        code.len() > 0 ==> {
            let c = (lead.len() + version.len() + gap.len()) as int;
            &&& c < line.len()
            &&& word_end(line, c) == c + code.len()
            &&& line.subrange(c, c + code.len()) == code
        },
{
    let a = lead.len() as int;
    let b = a + version.len();
    let c = b + gap.len();
    let d = c + code.len();
    assert(line =~= lead + version + gap + code + rest);
    assert forall|k: int| 0 <= k < a implies white_space(#[trigger] line[k]) by {
        assert(line[k] == lead[k]);
    }
    assert forall|k: int| a <= k < b implies !white_space(#[trigger] line[k]) by {
        assert(line[k] == version[k - a]);
    }
    assert forall|k: int| b <= k < c implies white_space(#[trigger] line[k]) by {
        assert(line[k] == gap[k - b]);
    }
    assert forall|k: int| c <= k < d implies !white_space(#[trigger] line[k]) by {
        assert(line[k] == code[k - c]);
    }
    if d < line.len() {
        assert(line[d] == rest[0]);
    }
    lemma_word_stop(line, 0, a);
    lemma_word_stop(line, a, b);
    lemma_word_stop(line, b, c);
    lemma_word_stop(line, c, d);
    assert(line.subrange(a, b) =~= version);
    assert(line.subrange(c, d) =~= code);
}

/// A header line is split at its first `=`; a line without one is bad, and the first bad line is
/// the one that is complained about.
pub proof fn law_headers_are_split_at_the_first_sign(
    rows: Seq<Seq<char>>,
    name: Seq<char>,
    value: Seq<char>,
)
    requires
        !name.contains('='),
    ensures
        header_fields(Seq::<Seq<char>>::empty()) == Ok::<_, MsgErrorView>(
            Seq::<(Seq<char>, Seq<char>)>::empty(),
        ),
        header_fields(rows) matches Ok(fields) ==> {
            &&& header_fields(rows.push(name + seq!['='] + value)) == Ok::<_, MsgErrorView>(
                fields.push((name, value)),
            )
            &&& header_fields(rows.push(name)) == Err::<Seq<(Seq<char>, Seq<char>)>, _>(
                MsgErrorView::BadHeader(name),
            )
        },
        header_fields(rows) is Err ==> header_fields(rows.push(value)) == header_fields(rows),
{
    assert(rows.push(name).drop_last() =~= rows);
    assert(rows.push(value).drop_last() =~= rows);
    let line = name + seq!['='] + value;
    assert(rows.push(line).drop_last() =~= rows);
    lemma_find_behind_plain(name, '=', value, seq!['=']);
    lemma_find_in_plain(name, '=', seq!['=']);
    assert(line.take(name.len() as int) =~= name);
    assert(line.skip(name.len() as int + 1) =~= value);
}

/// A response is its head, an empty line and its body. The head ends at the first empty line and
/// must be text. Its first line is the status line, and the others are headers. Where the first
/// header called `ContentLength` holds a number, the body has that length.
pub proof fn law_response_is_head_and_body(
    payload: &[u8],
    head: Seq<u8>,
    end: Seq<u8>,
    body: Seq<u8>,
    k: int,
    r: Result<Response, MsgError>,
)
    requires
        call_ensures(parse_response, (payload,), r),
        end == seq![13u8, 10, 13, 10],
        payload@ == head + end + body,
        forall|i: int|
            0 <= i < head.len() ==> #[trigger] (head + end).subrange(i, i + 4) != end,
    ensures
        !valid_utf8(head) ==> (r matches Err(error) && error@ is NotText),
        valid_utf8(head) ==> {
            let rows = split(decode_utf8(head), seq!['\r', '\n']);
            match status_code(rows[0]) {
                Err(wrong) => r matches Err(error) && error@ == wrong,
                Ok(code) => match header_fields(rows.skip(1)) {
                    Err(wrong) => r matches Err(error) && error@ == wrong,
                    Ok(headers) => 0 <= k <= headers.len() && (forall|i: int|
                        0 <= i < k ==> (#[trigger] headers[i]).0 != "ContentLength"@) && (k
                        < headers.len() ==> headers[k].0 == "ContentLength"@) ==> {
                        let length = if k < headers.len() {
                            parse_unsigned(headers[k].1, usize::MAX as nat)
                        } else {
                            None
                        };
                        if length is Some && length->0 != body.len() {
                            r matches Err(error) && error@ == (MsgErrorView::BadLength {
                                length: length->0,
                                body: body.len(),
                            })
                        } else {
                            r matches Ok(response) && response@ == (ResponseView {
                                code,
                                headers,
                                body,
                            })
                        }
                    },
                },
            }
        },
{
    let n = head.len() as int;
    assert(terminator() =~= end);
    assert(line_end() =~= seq!['\r', '\n']);
    assert(payload@.subrange(n, n + 4) =~= end);
    assert forall|j: int| 0 <= j < n implies !#[trigger] occurs_at(payload@, end, j) by {
        assert(payload@.subrange(j, j + 4) =~= (head + end).subrange(j, j + 4));
    }
    lemma_find_is_first(payload@, end, 0, n);
    assert(payload@.take(n) =~= head);
    assert(payload@.skip(n + 4) =~= body);
    if valid_utf8(head) {
        let rows = split(decode_utf8(head), seq!['\r', '\n']);
        if let Ok(headers) = header_fields(rows.skip(1)) {
            if 0 <= k <= headers.len() {
                lemma_first_header(headers, "ContentLength"@, k);
            }
        }
    }
}

/// Bytes without an empty line are no response.
pub proof fn law_response_needs_an_empty_line(payload: &[u8], r: Result<Response, MsgError>)
    requires
        call_ensures(parse_response, (payload,), r),
        forall|i: int|
            0 <= i && i + 4 <= payload@.len() ==> #[trigger] payload@.subrange(i, i + 4)
                != seq![13u8, 10, 13, 10],
    ensures
        r matches Err(error) && error@ is NoTerminator,
{
    let end = seq![13u8, 10, 13, 10];
    assert(terminator() =~= end);
    lemma_find(payload@, end, 0);
    if let Some(i) = find(payload@, end, 0) {
        assert(payload@.subrange(i, i + 4) != end);
    }
}

/// Each error has its own words: a wrong version and a bad header line are told as they stand, and
/// a wrong length names the announced one first and then that of the body.
pub proof fn law_message_errors_in_words(error: &MsgError, r: String)
    requires
        call_ensures(MsgError::message, (error,), r),
    ensures
        *error is NoTerminator ==> r@ == "response has no header terminator"@,
        *error is NotText ==> r@ == "response header is not text"@,
        *error is EmptyStatus ==> r@ == "response status line is empty"@,
        *error is NoCode ==> r@ == "response has no status code"@,
        *error is BadCode ==> r@ == "status code is not a number"@,
        *error matches MsgError::BadVersion(version) ==> r@ == "unexpected response version "@
            + version@,
        *error matches MsgError::BadHeader(line) ==> r@ == "bad response header "@ + line@,
        *error matches MsgError::BadLength { length, body } ==> r@ == "ContentLength was "@
            + decimal(length as nat) + ", body is "@ + decimal(body as nat) + " bytes"@,
{
}

/// An empty body is the document `null`, and any other body is the document that it spells, or the
/// reader's own words where it spells none.
pub proof fn law_body_is_a_document(response: &Response, r: Result<serde_json::Value, NotJson>)
    requires
        call_ensures(Response::json, (response,), r),
    ensures
        response.body@.len() == 0 ==> (r matches Ok(value) && value_text(value) == "null"@),
        response.body@.len() > 0 ==> match json_text(response.body@) {
            Ok(text) => r matches Ok(value) && value_text(value) == text,
            Err(words) => r matches Err(error) && error.words@ == words,
        },
{
}

} // verus!
