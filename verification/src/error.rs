//! Gateway error types and their mapping to HTTP responses.

use vstd::prelude::*;
use vstd::string::*;
use crate::app_selection::AppSelectionError;

verus! {

/// An error reported by the conductor, reduced to the distinctions the
/// gateway acts on: transport failures drive reconnection, guest (ribosome)
/// errors are passed through to the caller, everything else is internal.
#[derive(Debug, Clone)]
pub enum ConductorError {
    /// A websocket-layer failure: the connection is no longer usable.
    Websocket(String),
    /// A guest-side function error, passed through verbatim.
    RibosomeError(String),
    /// Any other protocol-level error from the conductor.
    Other(String),
}

/// Core gateway error type.
#[derive(Debug, Clone)]
pub enum HcHttpGatewayError {
    /// A client-side validation failure: invalid path, excess identifier
    /// length, invalid DNA hash or invalid encoding.
    RequestMalformed(String),
    /// The caller asked for a function that the policy does not allow.
    UnauthorizedFunction {
        /// App id
        app_id: String,
        /// Zome name
        zome_name: String,
        /// Function name
        fn_name: String,
    },
    /// An error reported by the conductor.
    HolochainError(ConductorError),
    /// The conductor could not be reached within the bounded retries.
    UpstreamUnavailable,
    /// No valid application could be selected.
    AppSelectionError(AppSelectionError),
}

/// Gateway result type.
pub type HcHttpGatewayResult<T> = Result<T, HcHttpGatewayError>;

/// Whether a conductor error is a transport-level disconnection, which is the
/// only kind of error that triggers a reconnect.
pub open spec fn is_transport_error(e: ConductorError) -> bool {
    e matches ConductorError::Websocket(_)
}

impl ConductorError {
    /// Decide whether this error is a transport-level disconnection.
    pub fn is_transport(&self) -> (r: bool)
        ensures
            r == is_transport_error(*self),
    {
        match self {
            ConductorError::Websocket(_) => true,
            _ => false,
        }
    }
}

/// The response body that a malformed request with the given detail receives.
pub open spec fn malformed_body(detail: Seq<char>) -> Seq<char> {
    "Request is malformed: "@ + detail
}

/// The response body that an unauthorized function call receives.
pub open spec fn unauthorized_body(
    app_id: Seq<char>,
    zome_name: Seq<char>,
    fn_name: Seq<char>,
) -> Seq<char> {
    "Function "@ + fn_name + " in zome "@ + zome_name + " in app "@ + app_id
        + " is not allowed"@
}

/// The response body for a failed application selection.
pub open spec fn app_selection_body(e: AppSelectionError) -> Seq<char> {
    "Error selecting a valid app: "@ + match e {
        AppSelectionError::NotInstalled => "App is not installed on the conductor"@,
        AppSelectionError::NotAllowed => "App is not in the list of allowed apps"@,
        AppSelectionError::MultipleMatching => (
            "Multiple matching apps were found, could not determine which to call"@
        ),
    }
}

/// The HTTP status code that each error kind maps to.
pub open spec fn status_code_of(e: HcHttpGatewayError) -> u16 {
    match e {
        HcHttpGatewayError::RequestMalformed(_) => 400,
        HcHttpGatewayError::UnauthorizedFunction { .. } => 403,
        HcHttpGatewayError::UpstreamUnavailable => 502,
        HcHttpGatewayError::AppSelectionError(AppSelectionError::NotInstalled) => 404,
        HcHttpGatewayError::AppSelectionError(AppSelectionError::NotAllowed) => 403,
        HcHttpGatewayError::AppSelectionError(AppSelectionError::MultipleMatching) => 500,
        HcHttpGatewayError::HolochainError(_) => 500,
    }
}

/// The body text that each error kind maps to.
pub open spec fn body_of(e: HcHttpGatewayError) -> Seq<char> {
    match e {
        HcHttpGatewayError::RequestMalformed(m) => malformed_body(m@),
        HcHttpGatewayError::UnauthorizedFunction { app_id, zome_name, fn_name } => (
            unauthorized_body(app_id@, zome_name@, fn_name@)
        ),
        HcHttpGatewayError::UpstreamUnavailable => "Could not connect to Holochain"@,
        HcHttpGatewayError::AppSelectionError(se) => app_selection_body(se),
        HcHttpGatewayError::HolochainError(ConductorError::RibosomeError(m)) => m@,
        HcHttpGatewayError::HolochainError(_) => "Something went wrong"@,
    }
}

impl HcHttpGatewayError {
    /// Convert the error into an HTTP status code and error message.
    pub fn into_status_code_and_body(self) -> (r: (u16, String))
        ensures
            r.0 == status_code_of(self),
            r.1@ == body_of(self),
    {
        match self {
            HcHttpGatewayError::RequestMalformed(m) => {
                let mut body = String::from_str("Request is malformed: ");
                body.append(m.as_str());
                (400, body)
            },
            HcHttpGatewayError::UnauthorizedFunction { app_id, zome_name, fn_name } => {
                let mut body = String::from_str("Function ");
                body.append(fn_name.as_str());
                body.append(" in zome ");
                body.append(zome_name.as_str());
                body.append(" in app ");
                body.append(app_id.as_str());
                body.append(" is not allowed");
                (403, body)
            },
            HcHttpGatewayError::UpstreamUnavailable => {
                (502, String::from_str("Could not connect to Holochain"))
            },
            HcHttpGatewayError::AppSelectionError(se) => {
                let mut body = String::from_str("Error selecting a valid app: ");
                let code: u16 = match se {
                    AppSelectionError::NotInstalled => {
                        body.append("App is not installed on the conductor");
                        404
                    },
                    AppSelectionError::NotAllowed => {
                        body.append("App is not in the list of allowed apps");
                        403
                    },
                    AppSelectionError::MultipleMatching => {
                        body.append(
                            "Multiple matching apps were found, could not determine which to call",
                        );
                        500
                    },
                };
                (code, body)
            },
            HcHttpGatewayError::HolochainError(ConductorError::RibosomeError(m)) => (500, m),
            HcHttpGatewayError::HolochainError(_) => {
                (500, String::from_str("Something went wrong"))
            },
        }
    }
}

/// Error format returned to the caller.
#[derive(Debug, Clone)]
pub struct ErrorResponse {
    /// The error message
    pub error: String,
}

impl From<String> for ErrorResponse {
    fn from(value: String) -> (r: Self) {
        ErrorResponse { error: value }
    }
}

impl vstd::std_specs::convert::FromSpecImpl<String> for ErrorResponse {
    open spec fn obeys_from_spec() -> bool {
        true
    }

    open spec fn from_spec(value: String) -> Self {
        ErrorResponse { error: value }
    }
}

/// The hexadecimal digit that serde_json uses for the low nibbles of a
/// `\u00XX` escape.
pub open spec fn hex_digit(n: int) -> char {
    if n == 0 { '0' } else if n == 1 { '1' } else if n == 2 { '2' } else if n == 3 { '3' }
    else if n == 4 { '4' } else if n == 5 { '5' } else if n == 6 { '6' } else if n == 7 { '7' }
    else if n == 8 { '8' } else if n == 9 { '9' } else if n == 10 { 'a' } else if n == 11 { 'b' }
    else if n == 12 { 'c' } else if n == 13 { 'd' } else if n == 14 { 'e' } else { 'f' }
}

/// How one character is written inside a JSON string, following the escaping
/// rules that serde_json applies: quote and backslash get a two-character
/// escape, the named control characters get their short escapes, all other
/// control characters get a `\u00XX` escape, and everything else stands as
/// itself.
pub open spec fn esc_char(c: char) -> Seq<char> {
    if c == '"' { seq!['\\', '"'] } else if c == '\\' { seq!['\\', '\\'] } else if c == '\u{8}' {
        seq!['\\', 'b']
    } else if c == '\t' { seq!['\\', 't'] } else if c == '\n' { seq!['\\', 'n'] } else if c
        == '\u{c}' { seq!['\\', 'f'] } else if c == '\r' { seq!['\\', 'r'] } else if (c as int)
        < 32 {
        seq!['\\', 'u', '0', '0', hex_digit(c as int / 16), hex_digit(c as int % 16)]
    } else {
        seq![c]
    }
}

/// The JSON-string escaping of a whole character sequence.
pub open spec fn json_escape(s: Seq<char>) -> Seq<char>
    decreases s.len(),
{
    if s.len() == 0 {
        Seq::empty()
    } else {
        esc_char(s[0]) + json_escape(s.skip(1))
    }
}

/// The JSON document `{"error": <message>}` in its serialized form.
pub open spec fn error_body_json(msg: Seq<char>) -> Seq<char> {
    "{\"error\":\""@ + json_escape(msg) + "\"}"@
}

proof fn lemma_json_escape_snoc(s: Seq<char>)
    requires
        s.len() > 0,
    ensures
        json_escape(s) == json_escape(s.drop_last()) + esc_char(s.last()),
    decreases s.len(),
{
    if s.len() == 1 {
        assert(s.drop_last() =~= Seq::<char>::empty());
        assert(s.skip(1) =~= Seq::<char>::empty());
        assert(json_escape(s) =~= json_escape(s.drop_last()) + esc_char(s.last()));
    } else {
        lemma_json_escape_snoc(s.skip(1));
        assert(s.skip(1).drop_last() =~= s.drop_last().skip(1));
        assert(s.skip(1).last() == s.last());
        assert(esc_char(s[0]) + (json_escape(s.skip(1).drop_last()) + esc_char(s.last()))
            =~= (esc_char(s.drop_last()[0]) + json_escape(s.drop_last().skip(1))) + esc_char(
            s.last(),
        ));
    }
}

/// One of the sixteen hexadecimal digit strings, by value.
fn hex_digit_str(n: u8) -> (r: &'static str)
    requires
        n < 16,
    ensures
        r@ =~= seq![hex_digit(n as int)],
{
    proof {
        reveal_strlit("0");
        reveal_strlit("1");
        reveal_strlit("2");
        reveal_strlit("3");
        reveal_strlit("4");
        reveal_strlit("5");
        reveal_strlit("6");
        reveal_strlit("7");
        reveal_strlit("8");
        reveal_strlit("9");
        reveal_strlit("a");
        reveal_strlit("b");
        reveal_strlit("c");
        reveal_strlit("d");
        reveal_strlit("e");
        reveal_strlit("f");
    }
    match n {
        0 => "0",
        1 => "1",
        2 => "2",
        3 => "3",
        4 => "4",
        5 => "5",
        6 => "6",
        7 => "7",
        8 => "8",
        9 => "9",
        10 => "a",
        11 => "b",
        12 => "c",
        13 => "d",
        14 => "e",
        _ => "f",
    }
}

/// The decimal digits of a nonnegative number, most significant first.
pub open spec fn dec_str_of(n: int) -> Seq<char>
    decreases n,
{
    if n < 10 {
        seq![hex_digit(n)]
    } else {
        dec_str_of(n / 10) + seq![hex_digit(n % 10)]
    }
}

/// Render a number in decimal.
pub fn u64_to_string(n: u64) -> (r: String)
    ensures
        r@ == dec_str_of(n as int),
    decreases n,
{
    if n < 10 {
        let s = hex_digit_str(n as u8).to_owned();
        s
    } else {
        let mut s = u64_to_string(n / 10);
        s.append(hex_digit_str((n % 10) as u8));
        s
    }
}

/// Escape a string for inclusion in a JSON string literal, exactly as
/// serde_json would write it.
pub fn json_escape_str(s: &str) -> (r: String)
    ensures
        r@ == json_escape(s@),
{
    let len = s.unicode_len();
    let mut out = String::new();
    let mut i: usize = 0;
    while i < len
        invariant
            len == s@.len(),
            i <= len,
            out@ == json_escape(s@.take(i as int)),
        decreases len - i,
    {
        let c = s.get_char(i);
        proof {
            reveal_strlit("\\\"");
            reveal_strlit("\\\\");
            reveal_strlit("\\b");
            reveal_strlit("\\t");
            reveal_strlit("\\n");
            reveal_strlit("\\f");
            reveal_strlit("\\r");
            reveal_strlit("\\u00");
        }
        if c == '"' {
            out.append("\\\"");
        } else if c == '\\' {
            out.append("\\\\");
        } else if c == '\u{8}' {
            out.append("\\b");
        } else if c == '\t' {
            out.append("\\t");
        } else if c == '\n' {
            out.append("\\n");
        } else if c == '\u{c}' {
            out.append("\\f");
        } else if c == '\r' {
            out.append("\\r");
        } else if (c as u32) < 32 {
            let code: u8 = (c as u32) as u8;
            out.append("\\u00");
            out.append(hex_digit_str(code / 16));
            out.append(hex_digit_str(code % 16));
        } else {
            let one = s.substring_char(i, i + 1);
            assert(one@ =~= seq![s@[i as int]]);
            out.append(one);
        }
        proof {
            lemma_json_escape_snoc(s@.take(i + 1 as int));
            assert(s@.take(i + 1 as int).drop_last() =~= s@.take(i as int));
            assert(s@.take(i + 1 as int).last() == s@[i as int]);
            assert(out@ =~= json_escape(s@.take(i + 1 as int)));
        }
        i = i + 1;
    }
    proof {
        assert(s@.take(len as int) =~= s@);
    }
    out
}

impl ErrorResponse {
    /// The serialized JSON form of this response, `{"error":"<message>"}`,
    /// with the message escaped as serde_json would escape it.
    pub fn to_json_string(&self) -> (r: String)
        ensures
            r@ == error_body_json(self.error@),
    {
        let mut out = String::from_str("{\"error\":\"");
        let escaped = json_escape_str(self.error.as_str());
        out.append(escaped.as_str());
        out.append("\"}");
        out
    }
}

} // verus!
