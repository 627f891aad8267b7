//! Which language-model backend a request goes to, and where the
//! conversation is kept.

use crate::error::Error;
use vstd::prelude::*;

verus! {

/// The backends a request can be sent to.
#[derive(Debug, Clone, Copy, PartialEq, Eq, Structural)]
pub enum Model {
    OLLAMA,
    OPENAI,
    ANTROPIC,
}

/// The model name a backend is asked for, if one is configured.
pub open spec fn model_name(m: Model) -> Option<Seq<char>> {
    match m {
        Model::OLLAMA => Some("qwen3:32b-q4_K_M"@),
        Model::OPENAI => Some("gpt-4.1-mini"@),
        Model::ANTROPIC => None,
    }
}

impl Model {
    /// The model name to request from the backend; none is configured for
    /// Anthropic.
    pub fn api_name(&self) -> (r: Option<String>)
        ensures
            r.is_some() == model_name(*self).is_some(),
            r.is_some() ==> r.unwrap()@ == model_name(*self).unwrap(),
    {
        match self {
            Model::OLLAMA => Some("qwen3:32b-q4_K_M".to_owned()),
            Model::OPENAI => Some("gpt-4.1-mini".to_owned()),
            Model::ANTROPIC => None,
        }
    }

    /// The backend's name, as logs show it.
    pub fn label(&self) -> (r: String)
        ensures
            r@ == match *self {
                Model::OLLAMA => "OLLAMA"@,
                Model::OPENAI => "OPENAI"@,
                Model::ANTROPIC => "ANTROPIC"@,
            },
    {
        match self {
            Model::OLLAMA => "OLLAMA".to_owned(),
            Model::OPENAI => "OPENAI".to_owned(),
            Model::ANTROPIC => "ANTROPIC".to_owned(),
        }
    }
}

/// The backend that requests go to by default.
#[derive(Debug, Clone, Copy)]
pub struct ChatContext {
    pub model: Model,
}

impl ChatContext {
    pub fn new() -> (r: Result<Self, Error>)
        ensures
            r matches Ok(c) && c.model == Model::OPENAI,
    {
        Ok(ChatContext { model: Model::OPENAI })
    }
}

/// Where the conversation files live, and the one being edited.
#[derive(Debug, Clone)]
pub struct History {
    pub root: String,
    pub file_path: String,
}

impl History {
    /// The path of file `name` inside the history directory.
    pub fn path_in_root(&self, name: &str) -> (r: String)
        ensures
            r@ == self.root@ + "/"@ + name@,
    {
        let mut p = self.root.clone();
        p.append("/");
        p.append(name);
        p
    }
}

} // verus!
