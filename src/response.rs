//! Responses: building them, rendering them as HTTP/1.1 text, and choosing the
//! response for a request or an error.
use vstd::prelude::*;
use vstd::utf8::encode_utf8;
use crate::number::{decimal_string, decimal_text};

verus! {

/// What can go wrong while serving one connection.
#[derive(Debug)]
pub enum ServerError {
    RequestTooLarge,
    DecodingError(String),
    /// A read or write failed; the text describes the failure.
    IoError(String),
    MethodNotAllowed,
}

/// A response: status line, header lines in order, and body.
#[derive(Debug)]
pub struct HttpResponse {
    pub status_code: u16,
    pub status_text: String,
    pub headers: Vec<(String, String)>,
    pub body: String,
}

/// Header lines as (key, value) texts.
pub type HeaderList = Seq<(Seq<char>, Seq<char>)>;

/// The mathematical value of a response.
pub struct ResponseModel {
    pub status_code: u16,
    pub status_text: Seq<char>,
    pub headers: HeaderList,
    pub body: Seq<char>,
}

impl View for HttpResponse {
    type V = ResponseModel;

    open spec fn view(&self) -> ResponseModel {
        ResponseModel {
            status_code: self.status_code,
            status_text: self.status_text@,
            headers: self.headers@.map_values(|p: (String, String)| (p.0@, p.1@)),
            body: self.body@,
        }
    }
}

/// The CORS headers that every response carries.
pub open spec fn cors_headers() -> HeaderList {
    seq![
        ("Access-Control-Allow-Origin"@, "*"@),
        ("Access-Control-Allow-Methods"@, "GET, POST, OPTIONS"@),
        ("Access-Control-Allow-Headers"@, "Content-Type"@),
    ]
}

/// `i` is the first header line whose key is `k`.
pub open spec fn is_first_key(hs: HeaderList, k: Seq<char>, i: int) -> bool {
    0 <= i < hs.len() && hs[i].0 == k && forall|j: int| 0 <= j < i ==> hs[j].0 != k
}

/// Sets header `k` to `v`: the first line with that key gets the new value;
/// where there is none, a line is added at the end.
pub open spec fn set_header(hs: HeaderList, k: Seq<char>, v: Seq<char>) -> HeaderList {
    if exists|i: int| is_first_key(hs, k, i) {
        hs.update(choose|i: int| is_first_key(hs, k, i), (k, v))
    } else {
        hs.push((k, v))
    }
}

/// A response with the given status, the CORS headers and no body.
pub open spec fn response_model(code: u16, text: Seq<char>) -> ResponseModel {
    ResponseModel { status_code: code, status_text: text, headers: cors_headers(), body: seq![] }
}

impl ResponseModel {
    /// Adds a plain-text body with its length header (its length in UTF-8 bytes).
    pub open spec fn with_body(self, body: Seq<char>) -> ResponseModel {
        ResponseModel {
            headers: self.headers.push(
                ("Content-Length"@, decimal_text(encode_utf8(body).len())),
            ).push(("Content-Type"@, "text/plain"@)),
            body: body,
            ..self
        }
    }

    pub open spec fn with_content_type(self, ct: Seq<char>) -> ResponseModel {
        ResponseModel { headers: set_header(self.headers, "Content-Type"@, ct), ..self }
    }
}

/// One rendered header line.
pub open spec fn header_line(h: (Seq<char>, Seq<char>)) -> Seq<char> {
    h.0 + ": "@ + h.1 + "\r\n"@
}

/// The rendered header lines, in order.
pub open spec fn rendered_headers(hs: HeaderList) -> Seq<char>
    decreases hs.len(),
{
    if hs.len() == 0 {
        seq![]
    } else {
        rendered_headers(hs.drop_last()) + header_line(hs.last())
    }
}

/// The response on the wire: status line, header lines, a blank line, the body.
pub open spec fn rendered(m: ResponseModel) -> Seq<char> {
    "HTTP/1.1 "@ + decimal_text(m.status_code as nat) + " "@ + m.status_text + "\r\n"@
        + rendered_headers(m.headers) + "\r\n"@ + m.body
}

impl HttpResponse {
    pub fn new(status_code: u16, status_text: &str) -> (r: HttpResponse)
        ensures
            r@ == response_model(status_code, status_text@),
    {
        let headers: Vec<(String, String)> = vec![
            (String::from_str("Access-Control-Allow-Origin"), String::from_str("*")),
            (
                String::from_str("Access-Control-Allow-Methods"),
                String::from_str("GET, POST, OPTIONS"),
            ),
            (String::from_str("Access-Control-Allow-Headers"), String::from_str("Content-Type")),
        ];
        let r = HttpResponse {
            status_code,
            status_text: status_text.to_owned(),
            headers,
            body: String::new(),
        };
        assert(r@.headers =~= cors_headers());
        assert(r@.body =~= seq![]);
        r
    }

    pub fn with_body(self, body: String) -> (r: HttpResponse)
        ensures
            r@ == self@.with_body(body@),
    {
        let mut r = self;
        let n = body.as_str().as_bytes().len();
        assert(n as nat == encode_utf8(body@).len());
        let len = decimal_string(n);
        r.headers.push((String::from_str("Content-Length"), len));
        r.headers.push((String::from_str("Content-Type"), String::from_str("text/plain")));
        r.body = body;
        assert(r@.headers =~= self@.with_body(body@).headers);
        r
    }

    pub fn with_content_type(self, content_type: &str) -> (r: HttpResponse)
        ensures
            r@ == self@.with_content_type(content_type@),
    {
        let mut r = self;
        let key = String::from_str("Content-Type");
        let ghost hs = r@.headers;
        let mut i: usize = 0;
        while i < r.headers.len()
            invariant
                r@ == self@,
                hs == self@.headers,
                key@ == "Content-Type"@,
                i <= hs.len(),
                forall|j: int| 0 <= j < i ==> hs[j].0 != key@,
            decreases r.headers.len() - i,
        {
            if r.headers[i].0 == key {
                assert(is_first_key(hs, key@, i as int));
                proof {
                    let c = choose|c: int| is_first_key(hs, key@, c);
                    if c < i {
                        assert(hs[c].0 != key@);
                    } else if i < c {
                    }
                }
                r.headers.set(i, (key, content_type.to_owned()));
                assert(r@.headers =~= set_header(hs, "Content-Type"@, content_type@));
                return r;
            }
            i = i + 1;
        }
        assert(!exists|c: int| is_first_key(hs, key@, c));
        r.headers.push((key, content_type.to_owned()));
        assert(r@.headers =~= set_header(hs, "Content-Type"@, content_type@));
        r
    }

    /// The response as HTTP/1.1 text.
    pub fn to_string(&self) -> (r: String)
        ensures
            r@ == rendered(self@),
    {
        let mut out = String::from_str("HTTP/1.1 ");
        let code = decimal_string(self.status_code as usize);
        out.append(code.as_str());
        out.append(" ");
        out.append(self.status_text.as_str());
        out.append("\r\n");
        let ghost head = out@;
        let ghost hs = self@.headers;
        let mut i: usize = 0;
        while i < self.headers.len()
            invariant
                i <= hs.len(),
                hs == self@.headers,
                out@ == head + rendered_headers(hs.subrange(0, i as int)),
            decreases self.headers.len() - i,
        {
            assert(hs.subrange(0, i + 1).drop_last() =~= hs.subrange(0, i as int));
            out.append(self.headers[i].0.as_str());
            out.append(": ");
            out.append(self.headers[i].1.as_str());
            out.append("\r\n");
            i = i + 1;
            assert(out@ =~= head + rendered_headers(hs.subrange(0, i as int)));
        }
        assert(hs.subrange(0, i as int) =~= hs);
        out.append("\r\n");
        out.append(self.body.as_str());
        assert(out@ =~= rendered(self@));
        out
    }
}

/// The plain-text error response with the given status.
pub open spec fn error_model(code: u16, text: Seq<char>, body: Seq<char>) -> ResponseModel {
    response_model(code, text).with_body(body).with_content_type("text/plain"@)
}

/// The response for each error.
pub open spec fn error_response(e: ServerError) -> ResponseModel {
    match e {
        ServerError::RequestTooLarge => error_model(
            413,
            "Request Entity Too Large"@,
            "Request Entity Too Large"@,
        ),
        ServerError::DecodingError(msg) => error_model(
            400,
            "Bad Request"@,
            "Bad Request: "@ + msg@,
        ),
        ServerError::MethodNotAllowed => error_model(
            405,
            "Method Not Allowed"@,
            "Method Not Allowed"@,
        ),
        ServerError::IoError(msg) => error_model(
            500,
            "Internal Server Error"@,
            "Internal Server Error: "@ + msg@,
        ),
    }
}

/// The answer to a CORS preflight: 200 with the CORS headers only, no body
/// and no content headers.
pub open spec fn options_response() -> ResponseModel {
    response_model(200, "OK"@)
}

/// The body of the answer to a GET or POST.
pub open spec fn request_body_text(method: Seq<char>, body: Seq<char>) -> Seq<char> {
    if method == "GET"@ {
        "GET request processed successfully"@
    } else if method == "POST"@ {
        "echo: "@ + body
    } else {
        "Unexpected method"@
    }
}

/// The answer to a GET or POST.
pub open spec fn request_response(method: Seq<char>, body: Seq<char>) -> ResponseModel {
    response_model(200, "OK"@).with_body(request_body_text(method, body)).with_content_type(
        "text/plain"@,
    )
}

/// The response for a decoded request: GET and POST go to the request
/// handler, OPTIONS to the preflight answer, anything else is not allowed.
pub open spec fn dispatched(method: Seq<char>, body: Seq<char>) -> ResponseModel {
    if method == "GET"@ || method == "POST"@ {
        request_response(method, body)
    } else if method == "OPTIONS"@ {
        options_response()
    } else {
        error_response(ServerError::MethodNotAllowed)
    }
}

/// Answers a GET (ignoring the body) or a POST (echoing the body).
pub fn handle_http_request(method: &str, body: &str) -> (r: HttpResponse)
    ensures
        r@ == request_response(method@, body@),
{
    let m = method.to_owned();
    let text = if m == String::from_str("GET") {
        String::from_str("GET request processed successfully")
    } else if m == String::from_str("POST") {
        let mut t = String::from_str("echo: ");
        t.append(body);
        t
    } else {
        String::from_str("Unexpected method")
    };
    HttpResponse::new(200, "OK").with_body(text).with_content_type("text/plain")
}

/// Answers a CORS preflight request.
pub fn handle_options_request() -> (r: HttpResponse)
    ensures
        r@ == options_response(),
{
    HttpResponse::new(200, "OK")
}

/// The response that reports `error` to the client.
pub fn create_error_response(error: ServerError) -> (r: HttpResponse)
    ensures
        r@ == error_response(error),
{
    match error {
        ServerError::RequestTooLarge => HttpResponse::new(413, "Request Entity Too Large").with_body(
            String::from_str("Request Entity Too Large"),
        ).with_content_type("text/plain"),
        ServerError::DecodingError(msg) => {
            let mut body = String::from_str("Bad Request: ");
            body.append(msg.as_str());
            HttpResponse::new(400, "Bad Request").with_body(body).with_content_type("text/plain")
        },
        ServerError::MethodNotAllowed => HttpResponse::new(405, "Method Not Allowed").with_body(
            String::from_str("Method Not Allowed"),
        ).with_content_type("text/plain"),
        ServerError::IoError(msg) => {
            let mut body = String::from_str("Internal Server Error: ");
            body.append(msg.as_str());
            HttpResponse::new(500, "Internal Server Error").with_body(body).with_content_type(
                "text/plain",
            )
        },
    }
}

/// Routes a decoded request by its method.
pub fn dispatch(method: &str, body: &str) -> (r: HttpResponse)
    ensures
        r@ == dispatched(method@, body@),
{
    let m = method.to_owned();
    if m == String::from_str("GET") || m == String::from_str("POST") {
        handle_http_request(method, body)
    } else if m == String::from_str("OPTIONS") {
        handle_options_request()
    } else {
        create_error_response(ServerError::MethodNotAllowed)
    }
}

} // verus!
