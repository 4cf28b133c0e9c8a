use vstd::prelude::*;

use crate::assoc::{assoc_get, lemma_assoc_get_at};
use crate::client::{ClientV, GoogleAiClient};
use crate::json::{get_v, json_parse, parse_json, then_str, then_u64, Json, JsonV};
use crate::retry::is_success;
use crate::text::{chars_of, has_prefix, nat_text, push_char, push_text, push_u64_text, starts_with};
use vstd::utf8::{decode_utf8, encode_utf8_decode_utf8, is_char_boundary, is_char_boundary_start_end_of_seq};
use vstd::string::StringSliceAdditionalSpecFns;
use crate::types::{is_auth_error, opt_view, ApiError};

verus! {

/// The OAuth credentials file of the Gemini CLI.
#[derive(Debug)]
pub struct OAuthCreds {
    pub access_token: String,
    pub scope: String,
    pub token_type: String,
    pub id_token: String,
    pub expiry_date: u64,
    pub refresh_token: String,
    pub client_id: Option<String>,
    pub client_secret: Option<String>,
    pub expiry: Option<String>,
}

pub struct CredsV {
    pub access_token: Seq<char>,
    pub scope: Seq<char>,
    pub token_type: Seq<char>,
    pub id_token: Seq<char>,
    pub expiry_date: u64,
    pub refresh_token: Seq<char>,
    pub client_id: Option<Seq<char>>,
    pub client_secret: Option<Seq<char>>,
    pub expiry: Option<Seq<char>>,
}

impl View for OAuthCreds {
    type V = CredsV;

    open spec fn view(&self) -> CredsV {
        CredsV {
            access_token: self.access_token@,
            scope: self.scope@,
            token_type: self.token_type@,
            id_token: self.id_token@,
            expiry_date: self.expiry_date,
            refresh_token: self.refresh_token@,
            client_id: opt_view(self.client_id),
            client_secret: opt_view(self.client_secret),
            expiry: opt_view(self.expiry),
        }
    }
}

/// Whether the access token is to be refreshed at `now_ms` (milliseconds since
/// the epoch): less than a minute before `expiry_date`, or an `expiry` text
/// that dates from the 2010s or 2020.
pub open spec fn creds_expired(c: CredsV, now_ms: u64) -> bool {
    ||| now_ms >= c.expiry_date.saturating_sub(60000)
    ||| match c.expiry {
        Some(e) => starts_with(e, "2020"@) || starts_with(e, "201"@),
        None => false,
    }
}

/// The client ID used to refresh a token when the credentials name none.
pub open spec fn default_client_id() -> Seq<char> {
    "***REMOVED***"@
}

/// The client secret used to refresh a token when the credentials name none.
pub open spec fn default_client_secret() -> Seq<char> {
    "***REMOVED***"@
}

/// The form posted to the token endpoint to refresh the access token.
pub open spec fn refresh_form_v(c: CredsV) -> Seq<(Seq<char>, Seq<char>)> {
    seq![
        ("client_id"@, match c.client_id {
            Some(id) => id,
            None => default_client_id(),
        }),
        ("client_secret"@, match c.client_secret {
            Some(s) => s,
            None => default_client_secret(),
        }),
        ("grant_type"@, "refresh_token"@),
        ("refresh_token"@, c.refresh_token),
    ]
}

/// The views of the pairs of a form.
pub open spec fn form_view(f: Seq<(String, String)>) -> Seq<(Seq<char>, Seq<char>)> {
    f.map_values(|p: (String, String)| (p.0@, p.1@))
}

/// Whether the new expiry date of a refresh fits in 64 bits.
pub open spec fn refresh_fits(now_ms: u64, resp: JsonV) -> bool {
    match then_u64(get_v(resp, "expires_in"@)) {
        Some(e) => now_ms + e * 1000 <= u64::MAX,
        None => true,
    }
}

/// Whether a refresh answer can be taken in at `now_ms`: when it holds an access
/// token, its new expiry date fits in 64 bits.
pub fn refresh_answer_fits(now_ms: u64, resp: &Json) -> (r: bool)
    ensures
        r == (then_str(get_v(resp@, "access_token"@)) is Some ==> refresh_fits(now_ms, resp@)),
{
    if resp.get_str("access_token").is_none() {
        return true;
    }
    match resp.get_u64("expires_in") {
        Some(e) => e <= (u64::MAX - now_ms) / 1000,
        None => true,
    }
}

/// The credentials after a refresh answer that holds an access token: the new
/// token; when `expires_in` is given, an expiry date that many seconds after
/// `now_ms` and no `expiry` text; and the new refresh token when one is given.
pub open spec fn refreshed(c: CredsV, now_ms: u64, resp: JsonV) -> CredsV {
    let token = match then_str(get_v(resp, "access_token"@)) {
        Some(t) => t,
        None => c.access_token,
    };
    let c1 = CredsV { access_token: token, ..c };
    let c2 = match then_u64(get_v(resp, "expires_in"@)) {
        Some(e) => CredsV { expiry_date: (now_ms + e * 1000) as u64, expiry: None, ..c1 },
        None => c1,
    };
    match then_str(get_v(resp, "refresh_token"@)) {
        Some(r) => CredsV { refresh_token: r, ..c2 },
        None => c2,
    }
}

fn copy_str_opt(o: &Option<String>) -> (r: Option<String>)
    ensures
        opt_view(r) == opt_view(*o),
{
    match o {
        Some(s) => Some(s.clone()),
        None => None,
    }
}

impl OAuthCreds {
    /// A copy of the credentials.
    pub fn copy(&self) -> (r: OAuthCreds)
        ensures
            r@ == self@,
    {
        OAuthCreds {
            access_token: self.access_token.clone(),
            scope: self.scope.clone(),
            token_type: self.token_type.clone(),
            id_token: self.id_token.clone(),
            expiry_date: self.expiry_date,
            refresh_token: self.refresh_token.clone(),
            client_id: copy_str_opt(&self.client_id),
            client_secret: copy_str_opt(&self.client_secret),
            expiry: copy_str_opt(&self.expiry),
        }
    }

    /// Whether the access token is to be refreshed at `now_ms`.
    pub fn is_expired(&self, now_ms: u64) -> (r: bool)
        ensures
            r == creds_expired(self@, now_ms),
    {
        if now_ms >= self.expiry_date.saturating_sub(60000) {
            return true;
        }
        match &self.expiry {
            Some(e) => {
                let cs = chars_of(e.as_str());
                has_prefix(&cs, "2020") || has_prefix(&cs, "201")
            },
            None => false,
        }
    }

    /// The form that refreshes the access token.
    pub fn refresh_form(&self) -> (f: Vec<(String, String)>)
        ensures
            form_view(f@) == refresh_form_v(self@),
    {
        let client_id = match &self.client_id {
            Some(id) => id.clone(),
            None => "***REMOVED***".to_owned(),
        };
        let client_secret = match &self.client_secret {
            Some(s) => s.clone(),
            None => "***REMOVED***".to_owned(),
        };
        let mut f: Vec<(String, String)> = Vec::new();
        f.push(("client_id".to_owned(), client_id));
        f.push(("client_secret".to_owned(), client_secret));
        f.push(("grant_type".to_owned(), "refresh_token".to_owned()));
        f.push(("refresh_token".to_owned(), self.refresh_token.clone()));
        proof {
            assert(form_view(f@) =~= refresh_form_v(self@));
        }
        f
    }

    /// Takes in the answer of the token endpoint. Without an access token in
    /// it, the credentials stay as they were and the refresh fails.
    pub fn apply_refresh(&mut self, now_ms: u64, resp: &Json) -> (r: Result<(), ApiError>)
        requires
            then_str(get_v(resp@, "access_token"@)) is Some ==> refresh_fits(now_ms, resp@),
        ensures
            match then_str(get_v(resp@, "access_token"@)) {
                Some(_) => r is Ok && final(self)@ == refreshed(old(self)@, now_ms, resp@),
                None => final(self)@ == old(self)@ && is_auth_error(r, "Refresh response missing access_token"@),
            },
    {
        match resp.get_str("access_token") {
            Some(token) => {
                self.access_token = token.clone();
                match resp.get_u64("expires_in") {
                    Some(exp_in) => {
                        self.expiry_date = now_ms + exp_in * 1000;
                        self.expiry = None;
                    },
                    None => {},
                }
                match resp.get_str("refresh_token") {
                    Some(rt) => {
                        self.refresh_token = rt.clone();
                    },
                    None => {},
                }
                Ok(())
            },
            None => Err(ApiError::Auth("Refresh response missing access_token".to_owned())),
        }
    }
}

/// The view of optional credentials.
pub open spec fn creds_view(c: Option<OAuthCreds>) -> Option<CredsV> {
    match c {
        Some(c) => Some(c@),
        None => None,
    }
}

/// What getting a valid access token needs next.
#[derive(Debug)]
pub enum TokenStep {
    /// The credentials file is to be read.
    LoadCredentials,
    /// The access token held is valid.
    Current(String),
    /// The token is to be refreshed by posting this form.
    Refresh(Vec<(String, String)>),
}

/// What resolving the project needs next.
#[derive(Debug)]
pub enum ProjectStep {
    /// The project is known.
    Known(String),
    /// The Code Assist endpoint is to be asked.
    AskServer,
}

/// The error when the Code Assist endpoint names no project.
pub open spec fn unresolved_project_message() -> Seq<char> {
    "Could not resolve project_id. Ensure your account has Gemini Code Assist access and run claw from a directory listed in ~/.gemini/projects.json."@
}

/// The reason phrase that the `http` crate gives a status code (`Not Found`
/// for 404), when it has one.
pub uninterp spec fn canonical_reason(code: u16) -> Option<Seq<char>>;

/// The reason phrase of a status by `reqwest::StatusCode::canonical_reason`.
/// Trusted: the contract names the result, a function of the code alone,
/// which the `http` crate looks up in a fixed table.
#[verifier::external_body]
fn status_reason(code: u16) -> (r: Option<String>)
    requires
        100 <= code <= 999,
    ensures
        opt_view(r) == canonical_reason(code),
{
    match reqwest::StatusCode::from_u16(code) {
        Ok(status) => status.canonical_reason().map(String::from),
        Err(_) => None,
    }
}

/// How a status is written (`Display` of `reqwest::StatusCode`): its number
/// and its reason phrase.
pub open spec fn status_text(code: u16) -> Seq<char> {
    nat_text(code as nat) + seq![' '] + match canonical_reason(code) {
        Some(r) => r,
        None => "<unknown status code>"@,
    }
}

/// The length of the part of a failed answer that an error quotes: at most
/// 300 bytes.
pub open spec fn quoted_len(body: Seq<u8>) -> int {
    if body.len() < 300 {
        body.len() as int
    } else {
        300
    }
}

/// The error when `loadCodeAssist` answers with a failure status: the status
/// and the first 300 bytes of the body.
pub open spec fn load_code_assist_failure(code: u16, body: Seq<u8>) -> Seq<char> {
    "loadCodeAssist HTTP "@ + status_text(code) + seq![' ', '\u{2014}', ' '] + decode_utf8(
        body.subrange(0, quoted_len(body)),
    )
}

/// The body of the `loadCodeAssist` call.
pub open spec fn load_code_assist_payload_v() -> JsonV {
    JsonV::Obj(
        seq![
            ("metadata"@, JsonV::Obj(
                seq![("ideType"@, JsonV::Str("IDE_UNSPECIFIED"@)), ("pluginType"@, JsonV::Str("GEMINI"@))],
            )),
        ],
    )
}

/// The body of the `loadCodeAssist` call.
pub fn load_code_assist_payload() -> (j: Json)
    ensures
        j@ == load_code_assist_payload_v(),
{
    Json::object1(
        "metadata",
        Json::object2("ideType", Json::text("IDE_UNSPECIFIED"), "pluginType", Json::text("GEMINI")),
    )
}

impl GoogleAiClient {
    /// What getting a valid access token at `now_ms` needs next: reading the
    /// credentials when none are held, else the held token when it is valid,
    /// else a refresh.
    pub fn token_step(&self, now_ms: u64) -> (s: TokenStep)
        ensures
            match self@.creds {
                None => s is LoadCredentials,
                Some(c) => if creds_expired(c, now_ms) {
                    s matches TokenStep::Refresh(f) && form_view(f@) == refresh_form_v(c)
                } else {
                    s matches TokenStep::Current(t) && t@ == c.access_token
                },
            },
    {
        match self.credentials() {
            None => TokenStep::LoadCredentials,
            Some(c) => {
                if c.is_expired(now_ms) {
                    TokenStep::Refresh(c.refresh_form())
                } else {
                    TokenStep::Current(c.access_token.clone())
                }
            },
        }
    }

    /// Takes in the answer of the token endpoint and gives the new access token.
    pub fn finish_refresh(&mut self, now_ms: u64, resp: &Json) -> (r: Result<String, ApiError>)
        requires
            old(self)@.creds is Some,
            then_str(get_v(resp@, "access_token"@)) is Some ==> refresh_fits(now_ms, resp@),
        ensures
            match then_str(get_v(resp@, "access_token"@)) {
                Some(t) => r matches Ok(tok) && tok@ == t && final(self)@ == (ClientV {
                    creds: Some(refreshed(old(self)@.creds->Some_0, now_ms, resp@)),
                    ..old(self)@
                }),
                None => final(self)@ == old(self)@ && is_auth_error(r, "Refresh response missing access_token"@),
            },
    {
        let mut c = match self.credentials() {
            Some(c) => c.copy(),
            None => {
                return Err(ApiError::Auth("Refresh response missing access_token".to_owned()));
            },
        };
        match c.apply_refresh(now_ms, resp) {
            Ok(()) => {
                let token = c.access_token.clone();
                self.set_credentials(c);
                Ok(token)
            },
            Err(e) => Err(e),
        }
    }

    /// What resolving the project needs next: the project already resolved,
    /// else `GOOGLE_CLOUD_PROJECT` (`env_project`) when it is set and not
    /// empty, which is then kept, else asking the Code Assist endpoint.
    pub fn project_step(&mut self, env_project: Option<String>) -> (s: ProjectStep)
        ensures
            match old(self)@.project_id {
                Some(p) => s matches ProjectStep::Known(q) && q@ == p && final(self)@ == old(self)@,
                None => match env_project {
                    Some(v) => if v@.len() > 0 {
                        s matches ProjectStep::Known(q) && q@ == v@ && final(self)@ == (ClientV {
                            project_id: Some(v@),
                            ..old(self)@
                        })
                    } else {
                        s is AskServer && final(self)@ == old(self)@
                    },
                    None => s is AskServer && final(self)@ == old(self)@,
                },
            },
    {
        match self.project() {
            Some(p) => {
                return ProjectStep::Known(p.clone());
            },
            None => {},
        }
        match env_project {
            Some(v) => {
                if !v.as_str().is_empty() {
                    self.set_project(v.clone());
                    ProjectStep::Known(v)
                } else {
                    ProjectStep::AskServer
                }
            },
            None => ProjectStep::AskServer,
        }
    }

    /// Takes in the answer of `loadCodeAssist`: its `cloudaicompanionProject`,
    /// when it is a non-empty string, is the project, which is then kept.
    pub fn resolve_project(&mut self, data: &Json) -> (r: Result<String, ApiError>)
        ensures
            match then_str(get_v(data@, "cloudaicompanionProject"@)) {
                Some(id) => if id.len() > 0 {
                    r matches Ok(p) && p@ == id && final(self)@ == (ClientV {
                        project_id: Some(id),
                        ..old(self)@
                    })
                } else {
                    final(self)@ == old(self)@ && is_auth_error(r, unresolved_project_message())
                },
                None => final(self)@ == old(self)@ && is_auth_error(r, unresolved_project_message()),
            },
    {
        match data.get_str("cloudaicompanionProject") {
            Some(id) => {
                if !id.as_str().is_empty() {
                    self.set_project(id.clone());
                    return Ok(id.clone());
                }
            },
            None => {},
        }
        Err(
            ApiError::Auth(
                "Could not resolve project_id. Ensure your account has Gemini Code Assist access and run claw from a directory listed in ~/.gemini/projects.json.".to_owned(),
            ),
        )
    }

    /// Takes in the status and body of the `loadCodeAssist` answer. A failure
    /// status is an authentication error quoting the status and the start of
    /// the body; a success body is read as JSON and resolved as
    /// `resolve_project` does, or is a JSON error when it is not JSON. The cut
    /// of the body must fall between characters, as slicing a `str` demands.
    pub fn finish_load_code_assist(&mut self, status: u16, body: &str) -> (r: Result<String, ApiError>)
        requires
            100 <= status <= 999,
            !(200 <= status <= 299) ==> is_char_boundary(body.spec_bytes(), quoted_len(body.spec_bytes())),
        ensures
            if !(200 <= status <= 299) {
                &&& final(self)@ == old(self)@
                &&& is_auth_error(r, load_code_assist_failure(status, body.spec_bytes()))
            } else {
                match json_parse(body@) {
                    Some(data) => match then_str(get_v(data, "cloudaicompanionProject"@)) {
                        Some(id) => if id.len() > 0 {
                            r matches Ok(p) && p@ == id && final(self)@ == (ClientV {
                                project_id: Some(id),
                                ..old(self)@
                            })
                        } else {
                            final(self)@ == old(self)@ && is_auth_error(r, unresolved_project_message())
                        },
                        None => final(self)@ == old(self)@ && is_auth_error(r, unresolved_project_message()),
                    },
                    None => {
                        &&& final(self)@ == old(self)@
                        &&& r matches Err(ApiError::Json { provider, model, body: b, .. }) && provider@ == "Google"@
                            && model@ == "loadCodeAssist"@ && b@ == body@
                    },
                }
            },
    {
        if !is_success(status) {
            let mut msg = String::new();
            push_text(&mut msg, "loadCodeAssist HTTP ");
            push_u64_text(&mut msg, status as u64);
            push_char(&mut msg, ' ');
            match status_reason(status) {
                Some(reason) => push_text(&mut msg, reason.as_str()),
                None => push_text(&mut msg, "<unknown status code>"),
            }
            proof {
                assert(msg@ =~= "loadCodeAssist HTTP "@ + status_text(status));
            }
            push_char(&mut msg, ' ');
            push_char(&mut msg, '\u{2014}');
            push_char(&mut msg, ' ');
            let n = body.as_bytes().len();
            let cut: usize = if n < 300 {
                n
            } else {
                300
            };
            proof {
                assert(cut as int == quoted_len(body.spec_bytes()));
            }
            let ghost before = msg@;
            let (head, _) = body.split_at(cut);
            push_text(&mut msg, head);
            proof {
                encode_utf8_decode_utf8(head@);
                assert(head@ == decode_utf8(body.spec_bytes().subrange(0, quoted_len(body.spec_bytes()))));
                assert(msg@ =~= load_code_assist_failure(status, body.spec_bytes()));
            }
            return Err(ApiError::Auth(msg));
        }
        match parse_json(body) {
            Ok(data) => self.resolve_project(&data),
            Err(detail) => Err(
                ApiError::Json {
                    provider: String::from_str("Google"),
                    model: String::from_str("loadCodeAssist"),
                    body: body.to_owned(),
                    detail,
                },
            ),
        }
    }
}


/// Once a token is to be refreshed, it stays so as time goes on.
pub proof fn lemma_expiry_monotone(c: CredsV, t1: u64, t2: u64)
    requires
        t1 <= t2,
        creds_expired(c, t1),
    ensures
        creds_expired(c, t2),
{
}

/// A refresh answer with an access token that lives more than a minute gives a
/// token that is current at the time of the refresh.
pub proof fn lemma_refresh_makes_token_current(c: CredsV, now_ms: u64, resp: JsonV)
    requires
        then_str(get_v(resp, "access_token"@)) is Some,
        then_u64(get_v(resp, "expires_in"@)) matches Some(e) && e > 60,
        refresh_fits(now_ms, resp),
    ensures
        !creds_expired(refreshed(c, now_ms, resp), now_ms),
{
}

/// The refresh form posts the credentials' client ID and client secret when
/// they are given and the built-in ones, which are not empty, when they are
/// not; with the refresh token held and the grant type `refresh_token`.
pub proof fn lemma_refresh_form_fields(c: CredsV)
    ensures
        assoc_get(refresh_form_v(c), "client_id"@) == Some(
            match c.client_id {
                Some(id) => id,
                None => default_client_id(),
            },
        ),
        assoc_get(refresh_form_v(c), "client_secret"@) == Some(
            match c.client_secret {
                Some(s) => s,
                None => default_client_secret(),
            },
        ),
        assoc_get(refresh_form_v(c), "grant_type"@) == Some("refresh_token"@),
        assoc_get(refresh_form_v(c), "refresh_token"@) == Some(c.refresh_token),
        default_client_id().len() > 0,
        default_client_secret().len() > 0,
        c.client_secret is None ==> assoc_get(refresh_form_v(c), "client_secret"@) != Some(Seq::<char>::empty()),
{
    reveal_strlit("client_id");
    reveal_strlit("client_secret");
    reveal_strlit("grant_type");
    reveal_strlit("refresh_token");
    reveal_strlit("***REMOVED***");
    assert("client_id"@.len() == 9);
    assert("client_secret"@.len() == 13);
    assert("grant_type"@.len() == 10);
    assert("refresh_token"@.len() == 13);
    assert("client_secret"@[0] != "refresh_token"@[0]);
    assert(default_client_id().len() > 0);
    assert(default_client_secret().len() > 0);
    let f = refresh_form_v(c);
    lemma_assoc_get_at(f, "client_id"@, 0);
    lemma_assoc_get_at(f, "client_secret"@, 1);
    lemma_assoc_get_at(f, "grant_type"@, 2);
    lemma_assoc_get_at(f, "refresh_token"@, 3);
}

}

