use std::collections::BTreeMap;

use vstd::prelude::*;
use vstd::string::*;

verus! {

#[verifier::external_type_specification]
#[verifier::external_body]
pub struct ExEnvironment<'source>(minijinja::Environment<'source>);

#[verifier::external_type_specification]
#[verifier::external_body]
pub struct ExError(minijinja::Error);

/// The templates registered in a template environment: name to source.
pub uninterp spec fn registered(env: minijinja::Environment<'static>) -> Map<Seq<char>, Seq<char>>;

/// Whether a default-configured template environment compiles `source` as a
/// template named `name` (the name picks the escaping).
pub uninterp spec fn compiles(name: Seq<char>, source: Seq<char>) -> bool;

/// Whether a default-configured template environment holding `templates`
/// renders the one named `name` without error, given the messages as
/// (role, content) pairs and the leading marker, with the generation prompt on.
pub uninterp spec fn render_ok(
    templates: Map<Seq<char>, Seq<char>>,
    name: Seq<char>,
    messages: Seq<(Seq<char>, Seq<char>)>,
    bos: Seq<char>,
) -> bool;

/// What that rendering gives when it succeeds. Every template of the
/// environment counts: one template may include, extend or import another.
pub uninterp spec fn rendered(
    templates: Map<Seq<char>, Seq<char>>,
    name: Seq<char>,
    messages: Seq<(Seq<char>, Seq<char>)>,
    bos: Seq<char>,
) -> Seq<char>;

/// No template at all.
pub open spec fn no_templates() -> Map<Seq<char>, Seq<char>> {
    Map::empty()
}

/// Relies on minijinja::Environment::new: a new environment holds no template.
#[verifier::external_body]
fn env_new() -> (r: minijinja::Environment<'static>)
    ensures
        registered(r) == no_templates(),
{
    minijinja::Environment::new()
}

/// Relies on minijinja::Environment::add_template: the source is compiled, and
/// only when that succeeds is it stored under the name (replacing any other).
#[verifier::external_body]
fn env_add_template(
    env: &mut minijinja::Environment<'static>,
    name: &'static str,
    source: &'static str,
) -> (r: Result<(), minijinja::Error>)
    ensures
        r is Ok <==> compiles(name@, source@),
        r is Ok ==> registered(*final(env)) == registered(*old(env)).insert(name@, source@),
        r is Err ==> registered(*final(env)) == registered(*old(env)),
{
    env.add_template(name, source)
}

/// Relies on minijinja::Environment::get_template, which fails only on a name
/// that was not registered, and on Template::render with a context of
/// `messages` (each a map of `role` and `content`), `bos_token` and
/// `add_generation_prompt` set to true.
#[verifier::external_body]
fn env_render(
    env: &minijinja::Environment<'static>,
    name: &str,
    messages: &Vec<(String, String)>,
    bos: &str,
) -> (r: Result<String, minijinja::Error>)
    ensures
        !registered(*env).contains_key(name@) ==> r is Err,
        registered(*env).contains_key(name@) ==> (r is Ok <==> render_ok(
            registered(*env),
            name@,
            messages@.map_values(|p: (String, String)| (p.0@, p.1@)),
            bos@,
        )),
        r matches Ok(s) ==> s@ == rendered(
            registered(*env),
            name@,
            messages@.map_values(|p: (String, String)| (p.0@, p.1@)),
            bos@,
        ),
{
    let msgs: Vec<minijinja::Value> = messages.iter().map(|(role, content)| {
        minijinja::Value::from(BTreeMap::from([("role", role.as_str()), ("content", content.as_str())]))
    }).collect();
    let mut ctx: BTreeMap<&str, minijinja::Value> = BTreeMap::new();
    ctx.insert("messages", minijinja::Value::from(msgs));
    ctx.insert("bos_token", minijinja::Value::from(bos));
    ctx.insert("add_generation_prompt", minijinja::Value::from(true));
    env.get_template(name)?.render(ctx)
}

/// Relies on minijinja::Error's `Display`, for the message shown to the user.
#[verifier::external_body]
fn error_text(e: &minijinja::Error) -> (r: String) {
    e.to_string()
}

/// Who wrote a message.
#[derive(PartialEq, Eq, Structural, Clone, Copy, Debug)]
pub enum Sender {
    User,
    Assistant,
    System,
}

/// One message of a conversation, in conversation order.
#[derive(Debug)]
pub struct ChatMessage {
    pub text: String,
    pub sender: Sender,
}

/// The model families whose conversation format is known.
#[derive(PartialEq, Eq, Structural, Clone, Copy, Debug)]
pub enum ChatTemplate {
    Llama3,
    Phi3,
}

/// Template syntax that did not compile when the registry was built.
#[derive(Debug)]
pub struct TemplateError {
    pub name: String,
    pub message: String,
}

/// A conversation that could not be rendered.
#[derive(Debug)]
pub struct RenderError {
    pub message: String,
}

pub const LLAMA3_NAME: &'static str = "llama3";

pub const PHI3_NAME: &'static str = "phi3";

pub const LLAMA3_SOURCE: &'static str = "{{ bos_token }}{% for message in messages %}{{ '<|start_header_id|>' + message['role'] + '<|end_header_id|>\\n\\n' + message['content'] + '<|eot_id|>' }}{% endfor %}{% if add_generation_prompt %}{{ '<|start_header_id|>assistant<|end_header_id|>\\n\\n' }}{% endif %}";

pub const PHI3_SOURCE: &'static str = "{{ bos_token }}{% for message in messages %}{{ '<|' + message['role'] + '|>\\n' + message['content'] + '<|end|>\\n' }}{% endfor %}{% if add_generation_prompt %}{{ '<|assistant|>\\n' }}{% endif %}";

pub const LLAMA3_BOS: &'static str = "<|begin_of_text|>";

pub const PHI3_BOS: &'static str = "<s>";

pub const LLAMA3_STOP: &'static str = "<|eot_id|>";

pub const PHI3_STOP: &'static str = "<|end|>";

/// The fixed lowercase role name used inside templates.
pub open spec fn role_name(s: Sender) -> Seq<char> {
    match s {
        Sender::User => "user"@,
        Sender::Assistant => "assistant"@,
        Sender::System => "system"@,
    }
}

/// A conversation as the (role, content) pairs a template sees.
pub open spec fn pairs(conversation: Seq<ChatMessage>) -> Seq<(Seq<char>, Seq<char>)> {
    conversation.map_values(|m: ChatMessage| (role_name(m.sender), m.text@))
}

impl ChatTemplate {
    pub open spec fn name(self) -> Seq<char> {
        match self {
            ChatTemplate::Llama3 => LLAMA3_NAME@,
            ChatTemplate::Phi3 => PHI3_NAME@,
        }
    }

    pub open spec fn source(self) -> Seq<char> {
        match self {
            ChatTemplate::Llama3 => LLAMA3_SOURCE@,
            ChatTemplate::Phi3 => PHI3_SOURCE@,
        }
    }

    pub open spec fn bos(self) -> Seq<char> {
        match self {
            ChatTemplate::Llama3 => LLAMA3_BOS@,
            ChatTemplate::Phi3 => PHI3_BOS@,
        }
    }

    pub open spec fn stop(self) -> Seq<char> {
        match self {
            ChatTemplate::Llama3 => LLAMA3_STOP@,
            ChatTemplate::Phi3 => PHI3_STOP@,
        }
    }

    /// The registry name of the template.
    pub fn template_name(self) -> (r: &'static str)
        ensures
            r@ == self.name(),
    {
        match self {
            ChatTemplate::Llama3 => LLAMA3_NAME,
            ChatTemplate::Phi3 => PHI3_NAME,
        }
    }

    /// The leading marker put once before the first message.
    pub fn leading_marker(self) -> (r: &'static str)
        ensures
            r@ == self.bos(),
    {
        match self {
            ChatTemplate::Llama3 => LLAMA3_BOS,
            ChatTemplate::Phi3 => PHI3_BOS,
        }
    }

    /// The marker that ends the model's turn in output of this family.
    pub fn stop_marker(self) -> (r: &'static str)
        ensures
            r@ == self.stop(),
            r@.len() > 0,
    {
        proof {
            reveal_strlit("<|eot_id|>");
            reveal_strlit("<|end|>");
        }
        match self {
            ChatTemplate::Llama3 => LLAMA3_STOP,
            ChatTemplate::Phi3 => PHI3_STOP,
        }
    }
}

/// The role name of a sender, as templates spell it.
pub fn role_str(s: Sender) -> (r: &'static str)
    ensures
        r@ == role_name(s),
{
    match s {
        Sender::User => "user",
        Sender::Assistant => "assistant",
        Sender::System => "system",
    }
}

/// The bundled templates, by name.
pub open spec fn bundled() -> Map<Seq<char>, Seq<char>> {
    map![LLAMA3_NAME@ => LLAMA3_SOURCE@, PHI3_NAME@ => PHI3_SOURCE@]
}

/// Whether every bundled template compiles.
pub open spec fn bundled_compile() -> bool {
    compiles(LLAMA3_NAME@, LLAMA3_SOURCE@) && compiles(PHI3_NAME@, PHI3_SOURCE@)
}

proof fn lemma_names_differ()
    ensures
        LLAMA3_NAME@ != PHI3_NAME@,
        bundled().contains_key(ChatTemplate::Llama3.name()),
        bundled().contains_key(ChatTemplate::Phi3.name()),
{
    reveal_strlit("llama3");
    reveal_strlit("phi3");
    assert(LLAMA3_NAME@[0] != PHI3_NAME@[0]);
}

/// Renders conversations with the templates of the known model families.
pub struct ChatTemplater {
    env: minijinja::Environment<'static>,
}

impl ChatTemplater {
    /// The templates this templater holds, by name: always exactly the
    /// bundled ones (see `new` and `apply`), so a lookup by `ChatTemplate`
    /// never fails.
    pub closed spec fn templates(&self) -> Map<Seq<char>, Seq<char>> {
        registered(self.env)
    }

    #[verifier::type_invariant]
    spec fn inv(self) -> bool {
        registered(self.env) == bundled()
    }

    /// Compiles every bundled template. Succeeds exactly when all of them
    /// compile, and then holds exactly those templates; there is no partly
    /// built templater.
    pub fn new() -> (r: Result<ChatTemplater, TemplateError>)
        ensures
            r is Ok <==> bundled_compile(),
            r matches Ok(t) ==> t.templates() == bundled(),
            r matches Err(e) ==> e.name@ == (if compiles(LLAMA3_NAME@, LLAMA3_SOURCE@) {
                PHI3_NAME@
            } else {
                LLAMA3_NAME@
            }),
    {
        let mut env = env_new();
        if let Err(e) = env_add_template(&mut env, LLAMA3_NAME, LLAMA3_SOURCE) {
            return Err(TemplateError { name: LLAMA3_NAME.to_owned(), message: error_text(&e) });
        }
        if let Err(e) = env_add_template(&mut env, PHI3_NAME, PHI3_SOURCE) {
            return Err(TemplateError { name: PHI3_NAME.to_owned(), message: error_text(&e) });
        }
        proof {
            lemma_names_differ();
            assert(registered(env) =~= bundled());
        }
        Ok(ChatTemplater { env })
    }

    /// Renders `conversation` with `template`: the leading marker, each message
    /// in order through the template's message format, then the generation
    /// prompt. The template is always found, so it fails exactly when the
    /// rendering itself fails.
    pub fn apply(&self, template: ChatTemplate, conversation: Vec<ChatMessage>) -> (r: Result<
        String,
        RenderError,
    >)
        ensures
            self.templates() == bundled(),
            r is Ok <==> render_ok(
                bundled(),
                template.name(),
                pairs(conversation@),
                template.bos(),
            ),
            r matches Ok(s) ==> s@ == rendered(
                bundled(),
                template.name(),
                pairs(conversation@),
                template.bos(),
            ),
    {
        proof {
            use_type_invariant(self);
            lemma_names_differ();
        }
        let mut msgs: Vec<(String, String)> = Vec::new();
        let mut i: usize = 0;
        while i < conversation.len()
            invariant
                i <= conversation@.len(),
                msgs@.len() == i,
                forall|k: int|
                    0 <= k < i ==> (#[trigger] msgs@[k]).0@ == role_name(conversation@[k].sender)
                        && msgs@[k].1@ == conversation@[k].text@,
            decreases conversation.len() - i,
        {
            let m = &conversation[i];
            msgs.push((role_str(m.sender).to_owned(), m.text.clone()));
            i = i + 1;
        }
        let ghost mapped = msgs@.map_values(|p: (String, String)| (p.0@, p.1@));
        assert(mapped =~= pairs(conversation@));
        match env_render(&self.env, template.template_name(), &msgs, template.leading_marker()) {
            Ok(s) => Ok(s),
            Err(e) => Err(RenderError { message: error_text(&e) }),
        }
    }
}

/// The prompt to send: the rendered conversation, or, when rendering failed,
/// the user's raw input as a degraded prompt.
pub fn prompt_or_input(rendered: Result<String, RenderError>, input: &str) -> (r: String)
    ensures
        r@ == match rendered {
            Ok(s) => s@,
            Err(_) => input@,
        },
{
    match rendered {
        Ok(s) => s,
        Err(_) => input.to_owned(),
    }
}

} // verus!
