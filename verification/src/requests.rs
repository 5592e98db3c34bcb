//! The requests that are sent to the usage services.

use vstd::prelude::*;

use crate::credentials;
use crate::text;

verus! {

/// Seconds after which a request is given up.
pub const REQUEST_TIMEOUT_SECS: u64 = 30;

pub const USAGE_URL: &'static str = "https://api.anthropic.com/api/oauth/usage";

pub const MESSAGES_URL: &'static str = "https://api.anthropic.com/v1/messages";

pub const CODEX_USAGE_URL: &'static str = "https://chatgpt.com/backend-api/wham/usage";

/// A header of a request.
#[derive(Clone, Debug)]
pub struct Header {
    pub name: String,
    pub value: String,
}

/// The body of a request to the Messages API: one message, and one token for the answer.
#[derive(Clone, Debug)]
pub struct MessagesBody {
    pub model: String,
    pub max_tokens: u32,
    pub role: String,
    pub content: String,
}

/// A request: GET without a body, POST with one.
#[derive(Clone, Debug)]
pub struct HttpRequest {
    pub url: String,
    pub headers: Vec<Header>,
    pub body: Option<MessagesBody>,
}

/// The model of a [`MessagesBody`].
pub struct Body {
    pub model: Seq<char>,
    pub max_tokens: u32,
    pub role: Seq<char>,
    pub content: Seq<char>,
}

/// The model of an [`HttpRequest`].
pub struct Request {
    pub url: Seq<char>,
    pub headers: Seq<(Seq<char>, Seq<char>)>,
    pub body: Option<Body>,
}

impl View for HttpRequest {
    type V = Request;

    open spec fn view(&self) -> Request {
        Request {
            url: self.url@,
            headers: self.headers@.map_values(|h: Header| (h.name@, h.value@)),
            body: match self.body {
                None => None,
                Some(b) => Some(
                    Body {
                        model: b.model@,
                        max_tokens: b.max_tokens,
                        role: b.role@,
                        content: b.content@,
                    },
                ),
            },
        }
    }
}

/// The header that presents the token.
pub open spec fn authorization(token: Seq<char>) -> (Seq<char>, Seq<char>) {
    ("Authorization"@, "Bearer "@ + token)
}

/// A header.
fn header(name: &str, value: &str) -> (h: Header)
    ensures
        h.name@ == name@,
        h.value@ == value@,
{
    Header { name: text::copy(name), value: text::copy(value) }
}

/// The header that presents the token.
fn authorization_header(token: &str) -> (h: Header)
    ensures
        (h.name@, h.value@) == authorization(token@),
{
    let mut value = text::copy("Bearer ");
    text::append(&mut value, token);
    Header { name: text::copy("Authorization"), value }
}

/// The request to the usage endpoint.
pub fn usage_request(token: &str) -> (request: HttpRequest)
    ensures
        request@ == (Request {
            url: USAGE_URL@,
            headers: seq![authorization(token@), ("anthropic-beta"@, "oauth-2025-04-20"@)],
            body: None,
        }),
{
    let mut headers: Vec<Header> = Vec::new();
    headers.push(authorization_header(token));
    headers.push(header("anthropic-beta", "oauth-2025-04-20"));
    let request = HttpRequest { url: text::copy(USAGE_URL), headers, body: None };
    assert(request@.headers =~= seq![
        authorization(token@),
        ("anthropic-beta"@, "oauth-2025-04-20"@),
    ]);
    request
}

/// How many models the Messages API is asked with, one after the other.
pub const MODEL_FALLBACKS: usize = 2;

/// The name of the model at the given place in the chain of models. All of them carry the
/// name of Anthropic's command line tool in front.
pub open spec fn fallback_model_name(tool: Seq<char>, place: int) -> Option<Seq<char>> {
    if place == 0 {
        Some(tool + "-3-haiku-20240307"@)
    } else if place == 1 {
        Some(tool + "-haiku-4-5-20251001"@)
    } else {
        None
    }
}

/// Names the model at the given place in the chain of models.
pub fn fallback_model(tool: &str, place: usize) -> (model: Option<String>)
    ensures
        model is Some == fallback_model_name(tool@, place as int) is Some,
        model is Some == (place < MODEL_FALLBACKS),
        model matches Some(name) ==> fallback_model_name(tool@, place as int) == Some(name@),
{
    let ending = if place == 0 {
        "-3-haiku-20240307"
    } else if place == 1 {
        "-haiku-4-5-20251001"
    } else {
        return None;
    };
    let mut name = text::copy(tool);
    text::append(&mut name, ending);
    Some(name)
}

/// The request to the Messages API: the smallest one that is answered with rate limit
/// headers.
pub fn messages_request(token: &str, model: &str) -> (request: HttpRequest)
    ensures
        request@ == (Request {
            url: MESSAGES_URL@,
            headers: seq![
                authorization(token@),
                ("anthropic-version"@, "2023-06-01"@),
                ("anthropic-beta"@, "oauth-2025-04-20"@),
            ],
            body: Some(Body { model: model@, max_tokens: 1, role: "user"@, content: "."@ }),
        }),
{
    let mut headers: Vec<Header> = Vec::new();
    headers.push(authorization_header(token));
    headers.push(header("anthropic-version", "2023-06-01"));
    headers.push(header("anthropic-beta", "oauth-2025-04-20"));
    let body = MessagesBody {
        model: text::copy(model),
        max_tokens: 1,
        role: text::copy("user"),
        content: text::copy("."),
    };
    let request = HttpRequest { url: text::copy(MESSAGES_URL), headers, body: Some(body) };
    assert(request@.headers =~= seq![
        authorization(token@),
        ("anthropic-version"@, "2023-06-01"@),
        ("anthropic-beta"@, "oauth-2025-04-20"@),
    ]);
    request
}

/// The headers of a request to the Codex usage endpoint. The account is named only if it
/// is known and not empty.
pub open spec fn codex_headers(token: Seq<char>, account_id: Option<Seq<char>>) -> Seq<
    (Seq<char>, Seq<char>),
> {
    let always = seq![authorization(token), ("User-Agent"@, "codex-cli"@)];
    match account_id {
        Some(id) => if id.len() > 0 {
            always.push(("ChatGPT-Account-Id"@, id))
        } else {
            always
        },
        None => always,
    }
}

/// The request to the Codex usage endpoint.
pub fn codex_request(token: &str, account_id: Option<&str>) -> (request: HttpRequest)
    ensures
        request@ == (Request {
            url: CODEX_USAGE_URL@,
            headers: codex_headers(
                token@,
                match account_id {
                    Some(id) => Some(id@),
                    None => None,
                },
            ),
            body: None,
        }),
{
    let mut headers: Vec<Header> = Vec::new();
    headers.push(authorization_header(token));
    headers.push(header("User-Agent", "codex-cli"));
    if let Some(id) = account_id {
        if !id.is_empty() {
            headers.push(header("ChatGPT-Account-Id", id));
        }
    }
    let request = HttpRequest { url: text::copy(CODEX_USAGE_URL), headers, body: None };
    assert(request@.headers =~= codex_headers(
        token@,
        match account_id {
            Some(id) => Some(id@),
            None => None,
        },
    ));
    request
}

/// A token that is accepted makes a header of printable ASCII characters: nothing in it can
/// end the header or start another one.
pub proof fn law_accepted_token_fits_a_header(token: Seq<char>)
    requires
        credentials::acceptable_token(token),
    ensures
        forall|i: int|
            0 <= i < authorization(token).1.len() ==> ' ' <= #[trigger] authorization(token).1[i]
                <= '~',
{
    reveal_strlit("Bearer ");
    let value = authorization(token).1;
    assert forall|i: int| 0 <= i < value.len() implies ' ' <= #[trigger] value[i] <= '~' by {
        if i >= 7 {
            assert(value[i] == token[i - 7]);
        }
    }
}

/// A request presents the token as a bearer token. One to Codex names the account exactly if
/// it is known and not empty.
pub proof fn law_requests_present_the_token(token: Seq<char>, account_id: Option<Seq<char>>)
    ensures
        authorization(token) == ("Authorization"@, "Bearer "@ + token),
        codex_headers(token, account_id).len() >= 2,
        codex_headers(token, account_id)[0] == ("Authorization"@, "Bearer "@ + token),
        codex_headers(token, account_id)[1] == ("User-Agent"@, "codex-cli"@),
        account_id is Some && account_id.unwrap().len() > 0 ==> codex_headers(token, account_id)
            == seq![
            ("Authorization"@, "Bearer "@ + token),
            ("User-Agent"@, "codex-cli"@),
            ("ChatGPT-Account-Id"@, account_id.unwrap()),
        ],
        account_id is None || account_id.unwrap().len() == 0 ==> codex_headers(
            token,
            account_id,
        ).len() == 2,
{
    if account_id is Some && account_id.unwrap().len() > 0 {
        assert(codex_headers(token, account_id) =~= seq![
            ("Authorization"@, "Bearer "@ + token),
            ("User-Agent"@, "codex-cli"@),
            ("ChatGPT-Account-Id"@, account_id.unwrap()),
        ]);
    }
}

/// The chain has two models, which are different ones of the tool's own.
pub proof fn law_chain_of_models(tool: Seq<char>, place: int)
    ensures
        fallback_model_name(tool, place) is Some <==> 0 <= place < 2,
        fallback_model_name(tool, 0) == Some(tool + "-3-haiku-20240307"@),
        fallback_model_name(tool, 1) == Some(tool + "-haiku-4-5-20251001"@),
{
}

} // verus!
