use vstd::prelude::*;

use crate::assoc::assoc_insert;
use crate::auth::{creds_view, CredsV, OAuthCreds};
use crate::cache::{ToolCallCache, ToolCallMeta};
use crate::types::{opt_view, ApiError};

verus! {

/// The path of the credentials file when `GOOGLE_OAUTH_CREDS_FILE` is not set:
/// `<home>/.gemini/oauth_creds.json`, where home is `HOME` or `/root`.
pub open spec fn default_creds_path(home: Option<Seq<char>>) -> Seq<char> {
    let h = match home {
        Some(h) => h,
        None => "/root"@,
    };
    h + "/.gemini/oauth_creds.json"@
}

/// What a client holds: where its credentials live, the credentials once read,
/// the project once resolved, and the tool calls seen in the model's answers.
pub struct ClientV {
    pub creds_path: Seq<char>,
    pub creds: Option<CredsV>,
    pub project_id: Option<Seq<char>>,
    pub tool_calls: Seq<(Seq<char>, (Seq<char>, Option<Seq<char>>))>,
}

/// A client of the Gemini Code Assist API. It holds no connection: the
/// requests are sent by its caller, which hands it what comes back.
pub struct GoogleAiClient {
    creds_path: String,
    creds: Option<OAuthCreds>,
    project_id: Option<String>,
    tool_call_cache: ToolCallCache,
}

impl View for GoogleAiClient {
    type V = ClientV;

    closed spec fn view(&self) -> ClientV {
        ClientV {
            creds_path: self.creds_path@,
            creds: creds_view(self.creds),
            project_id: opt_view(self.project_id),
            tool_calls: self.tool_call_cache@,
        }
    }
}

impl GoogleAiClient {
    /// A client with nothing read yet. `creds_file_env` and `home_env` are the
    /// values of `GOOGLE_OAUTH_CREDS_FILE` and `HOME`, when they are set.
    pub fn new(creds_file_env: Option<String>, home_env: Option<String>) -> (r: Result<GoogleAiClient, ApiError>)
        ensures
            r is Ok,
            r matches Ok(c) ==> c@.creds_path == match creds_file_env {
                Some(p) => p@,
                None => default_creds_path(opt_view(home_env)),
            },
            r matches Ok(c) ==> c@.creds is None && c@.project_id is None && c@.tool_calls.len() == 0,
    {
        let creds_path = match creds_file_env {
            Some(p) => p,
            None => {
                let home = match home_env {
                    Some(h) => h,
                    None => String::from_str("/root"),
                };
                home.concat("/.gemini/oauth_creds.json")
            },
        };
        Ok(GoogleAiClient { creds_path, creds: None, project_id: None, tool_call_cache: ToolCallCache::new() })
    }

    /// The path of the credentials file.
    pub fn creds_path(&self) -> (p: &String)
        ensures
            p@ == self@.creds_path,
    {
        &self.creds_path
    }

    /// The tool calls seen in the model's answers.
    pub fn tool_call_cache(&self) -> (c: &ToolCallCache)
        ensures
            c@ == self@.tool_calls,
    {
        &self.tool_call_cache
    }

    /// Remembers a tool call under its ID.
    pub fn remember_tool_call(&mut self, id: String, meta: ToolCallMeta)
        ensures
            final(self)@ == (ClientV { tool_calls: assoc_insert(old(self)@.tool_calls, id@, meta@), ..old(self)@ }),
    {
        self.tool_call_cache.insert(id, meta);
    }

    /// The credentials held, if they have been read.
    pub fn credentials(&self) -> (c: Option<&OAuthCreds>)
        ensures
            match c {
                Some(c) => self@.creds == Some(c@),
                None => self@.creds is None,
            },
    {
        match &self.creds {
            Some(c) => Some(c),
            None => None,
        }
    }

    /// Holds the credentials read from the credentials file, or refreshed.
    pub fn set_credentials(&mut self, creds: OAuthCreds)
        ensures
            final(self)@ == (ClientV { creds: Some(creds@), ..old(self)@ }),
    {
        self.creds = Some(creds);
    }

    /// The project resolved, if it has been.
    pub fn project(&self) -> (p: Option<&String>)
        ensures
            match p {
                Some(p) => self@.project_id == Some(p@),
                None => self@.project_id is None,
            },
    {
        match &self.project_id {
            Some(p) => Some(p),
            None => None,
        }
    }

    pub(crate) fn set_project(&mut self, p: String)
        ensures
            final(self)@ == (ClientV { project_id: Some(p@), ..old(self)@ }),
    {
        self.project_id = Some(p);
    }
}

}
