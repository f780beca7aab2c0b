use vstd::prelude::*;

pub mod chat;
pub mod completions;
pub mod matcher;
pub mod message;
pub mod requests;
pub mod transcript;

verus! {

/// Start-up settings: the model file to load and the conversation format it expects.
pub struct Flags {
    pub model_path: String,
    pub chat_template: chat::ChatTemplate,
}

} // verus!
