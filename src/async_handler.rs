//! The state shared between the editor and the one background worker that
//! runs a request: whether a request runs, and the response it left.

use crate::chat::{ChatContext, Model};
use vstd::prelude::*;

verus! {

/// Whether a request runs, and how the last one ended.
#[derive(Debug, Clone, PartialEq, Eq)]
pub enum RequestState {
    Idle,
    Processing,
    Error(String),
}

/// What a finished request left for the editor.
#[derive(Debug, Clone)]
pub struct ApiResponse {
    pub content: String,
    pub error: Option<String>,
}

/// The state shared with the worker.
pub struct EditorState {
    pub request_state: RequestState,
    pub api_response: Option<ApiResponse>,
}

/// The message set when a request is attempted with an empty buffer.
pub open spec fn empty_buffer_message() -> Seq<char> {
    "Cannot send empty buffer. Please write the question"@
}

/// What a successful response is turned into before it is appended.
pub open spec fn formatted_response(answer: Seq<char>) -> Seq<char> {
    "\n\nAssistant\n "@ + answer
}

/// A request handed to the worker: the content and the backend.
#[derive(Debug, Clone)]
pub struct Request {
    pub content: String,
    pub model: Model,
    pub chat_context: ChatContext,
}

impl EditorState {
    pub fn new() -> (r: Self)
        ensures
            r.request_state == RequestState::Idle,
            r.api_response.is_none(),
    {
        Self { request_state: RequestState::Idle, api_response: None }
    }

    pub fn set_error(&mut self, error: String)
        ensures
            final(self).request_state == RequestState::Error(error),
            final(self).api_response == old(self).api_response,
    {
        self.request_state = RequestState::Error(error);
    }

    /// Starts a request for `content`, unless it is empty (then the state
    /// records the error) or a request already runs (then nothing
    /// changes). Returns whether a worker is to be started.
    pub fn begin_request(&mut self, content: &String) -> (r: bool)
        ensures
            old(self).request_state is Processing ==> !r && *final(self) == *old(self),
            !(old(self).request_state is Processing) && content@.len() == 0 ==> !r
                && final(self).request_state is Error && final(self).request_state->Error_0@
                == empty_buffer_message() && final(self).api_response == old(self).api_response,
            !(old(self).request_state is Processing) && content@.len() > 0 ==> r
                && final(self).request_state == RequestState::Processing
                && final(self).api_response == old(self).api_response,
    {
        if let RequestState::Processing = self.request_state {
            return false;
        }
        if content.as_str().is_empty() {
            self.set_error("Cannot send empty buffer. Please write the question".to_owned());
            return false;
        }
        self.request_state = RequestState::Processing;
        true
    }

    /// Records how the worker's request ended: the formatted answer, or
    /// the error message.
    pub fn finish_request(&mut self, result: Result<String, String>)
        ensures
            result is Ok ==> final(self).request_state == RequestState::Idle
                && final(self).api_response is Some && final(self).api_response.unwrap().content@
                == formatted_response(result->Ok_0@) && final(self).api_response.unwrap().error.is_none(),
            result is Err ==> final(self).request_state == RequestState::Error(result->Err_0)
                && final(self).api_response is Some && final(self).api_response.unwrap().content@.len() == 0
                && final(self).api_response.unwrap().error == Some(result->Err_0),
    {
        match result {
            Ok(answer) => {
                let mut content = "\n\nAssistant\n ".to_owned();
                content.append(answer.as_str());
                self.request_state = RequestState::Idle;
                self.api_response = Some(ApiResponse { content, error: None });
            },
            Err(e) => {
                let e2 = e.clone();
                self.request_state = RequestState::Error(e);
                self.api_response = Some(ApiResponse { content: String::new(), error: Some(e2) });
            },
        }
    }

    /// Takes the response left by the worker, if any; it is handed out
    /// once.
    pub fn take_response(&mut self) -> (r: Option<ApiResponse>)
        ensures
            r == old(self).api_response,
            final(self).api_response.is_none(),
            final(self).request_state == old(self).request_state,
    {
        self.api_response.take()
    }
}

/// Prepares requests for the background worker.
pub struct AsyncCommandHandler {
    pub chat_context: ChatContext,
}

impl AsyncCommandHandler {
    pub fn new(chat_context: ChatContext) -> (r: Self)
        ensures
            r.chat_context == chat_context,
    {
        Self { chat_context }
    }

    /// Starts a request of `content` to `ai_model` on the shared state, and
    /// returns what the worker is to send; nothing when the content is
    /// empty or a request already runs.
    pub fn send_to_api(&self, state: &mut EditorState, content: String, ai_model: Model) -> (r:
        Option<Request>)
        ensures
            (old(state).request_state is Processing) ==> r.is_none() && *final(state) == *old(state),
            !(old(state).request_state is Processing) && content@.len() == 0 ==> r.is_none()
                && final(state).request_state is Error && final(state).request_state->Error_0@
                == empty_buffer_message(),
            !(old(state).request_state is Processing) && content@.len() > 0 ==> final(state).request_state
                == RequestState::Processing && r is Some && r.unwrap().content@ == content@
                && r.unwrap().model == ai_model && r.unwrap().chat_context == self.chat_context,
            final(state).api_response == old(state).api_response,
    {
        if state.begin_request(&content) {
            Some(Request { content, model: ai_model, chat_context: self.chat_context })
        } else {
            None
        }
    }

    /// Completion requests are not offered yet: nothing happens.
    pub fn request_lsp_completion(&self, _position: (usize, usize)) {
    }
}

} // verus!
