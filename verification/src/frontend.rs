//! What the application answers its front end: transaction results, plugin
//! runs, the voice assistant's session, and the parameters of a genetic
//! optimisation node.
use vstd::prelude::*;
use crate::error::{ErrorCode, RaiseError};
use crate::json::{jents, jvs, lemma_jents, lemma_jvs, member, JVal, JsonNumber, JsonValue};
use crate::json_text::push_all;
use crate::system_index::{int_num, str_of};
use crate::text::{from_chars, to_chars};

verus! {

/// The outcome of a transaction submitted to the ledger.
#[derive(Debug)]
pub struct TransactionResult {
    pub success: bool,
    pub message: String,
    pub payload: Option<JsonValue>,
}

/// A transaction result as JSON: `success`, `message`, and `payload`
/// (null when there is none), in that order.
pub open spec fn transaction_json(success: bool, message: Seq<char>, payload: Option<JVal>) -> JVal {
    JVal::Obj(
        seq![
            ("success"@, JVal::Bool(success)),
            ("message"@, JVal::Str(message)),
            ("payload"@, match payload {
                Some(p) => p,
                None => JVal::Null,
            }),
        ],
    )
}

impl TransactionResult {
    /// The result as JSON (see `transaction_json`).
    pub fn to_json(&self) -> (r: JsonValue)
        ensures
            r@ == transaction_json(
                self.success,
                self.message@,
                match self.payload {
                    Some(p) => Some(p@),
                    None => None,
                },
            ),
    {
        let payload = match &self.payload {
            Some(p) => p.deep_clone(),
            None => JsonValue::Null,
        };
        let o = vec![
            ("success".to_owned(), JsonValue::Bool(self.success)),
            ("message".to_owned(), JsonValue::String(self.message.clone())),
            ("payload".to_owned(), payload),
        ];
        proof {
            lemma_jents(o@);
            assert(jents(o@) =~= match transaction_json(
                self.success,
                self.message@,
                match self.payload {
                    Some(p) => Some(p@),
                    None => None,
                },
            ) {
                JVal::Obj(e) => e,
                _ => Seq::empty(),
            });
        }
        JsonValue::Object(o)
    }
}

/// The answer to a plugin run: its exit code and the signals it emitted.
pub open spec fn plugin_run_json(code: i64, signals: Seq<JVal>) -> JVal {
    JVal::Obj(seq![("exit_code"@, int_num(code)), ("signals"@, JVal::Arr(signals))])
}

/// The answer to a plugin run (see `plugin_run_json`).
pub fn plugin_run_response(code: i64, signals: Vec<JsonValue>) -> (r: JsonValue)
    ensures
        r@ == plugin_run_json(code, jvs(signals@)),
{
    let o = vec![
        ("exit_code".to_owned(), JsonValue::Number(JsonNumber::from_int(code))),
        ("signals".to_owned(), JsonValue::Array(signals)),
    ];
    proof {
        lemma_jents(o@);
        assert(jents(o@) =~= seq![("exit_code"@, int_num(code)), ("signals"@, JVal::Arr(jvs(signals@)))]);
    }
    JsonValue::Object(o)
}

/// The message of a plugin loaded: `Plugin {id} chargé avec succès`.
pub fn plugin_loaded_message(id: &str) -> (r: String)
    ensures
        r@ == "Plugin "@ + id@ + " chargé avec succès"@,
{
    let mut out = to_chars("Plugin ");
    push_all(&to_chars(id), &mut out);
    push_all(&to_chars(" chargé avec succès"), &mut out);
    from_chars(out.as_slice())
}

/// The status the voice assistant reports to the front end.
#[derive(Debug, Clone, Copy, PartialEq, Eq, Structural)]
pub enum VoiceStatus {
    Idle,
    Loading,
    Listening,
    Transcribing,
    Thinking,
}

impl VoiceStatus {
    /// The status as the front end names it.
    pub fn as_str(&self) -> (s: &'static str)
        ensures
            s@ == match *self {
                VoiceStatus::Idle => "idle"@,
                VoiceStatus::Loading => "loading"@,
                VoiceStatus::Listening => "listening"@,
                VoiceStatus::Transcribing => "transcribing"@,
                VoiceStatus::Thinking => "thinking"@,
            },
    {
        match self {
            VoiceStatus::Idle => "idle",
            VoiceStatus::Loading => "loading",
            VoiceStatus::Listening => "listening",
            VoiceStatus::Transcribing => "transcribing",
            VoiceStatus::Thinking => "thinking",
        }
    }
}

/// The session of the voice assistant: whether it listens, whether its
/// speech engine is loaded, and whether a microphone listener runs.
#[derive(Debug)]
pub struct VoiceState {
    pub is_listening: bool,
    pub engine_loaded: bool,
    pub listener_active: bool,
}

/// What toggling the assistant asks the application to do.
#[derive(Debug, PartialEq, Eq, Structural)]
pub enum ToggleAction {
    /// Stop the microphone, report `idle`.
    Stop,
    /// Report `loading`, load the speech engine first when `load_engine`,
    /// then start the microphone.
    Start { load_engine: bool },
}

/// What to do with one chunk of audio.
#[derive(Debug)]
pub enum ChunkAction {
    /// The assistant stopped listening: end the session loop.
    Stop,
    /// No text came out of the chunk: wait for the next one.
    Skip,
    /// The text was blank: report `listening` again.
    Resume,
    /// Report the text, report `thinking`, run the workflow on the text,
    /// then report `listening`.
    Dispatch { text: String },
}

impl VoiceState {
    /// A session that does not listen, with no engine and no listener.
    pub fn new() -> (s: VoiceState)
        ensures
            !s.is_listening,
            !s.engine_loaded,
            !s.listener_active,
    {
        VoiceState { is_listening: false, engine_loaded: false, listener_active: false }
    }

    /// Toggles the assistant: a listening session stops (its listener is
    /// dropped); another one starts, loading the engine when it has none.
    pub fn toggle(&mut self) -> (a: ToggleAction)
        ensures
            old(self).is_listening ==> a == ToggleAction::Stop && !final(self).is_listening
                && !final(self).listener_active && final(self).engine_loaded == old(
                self,
            ).engine_loaded,
            !old(self).is_listening ==> a == (ToggleAction::Start {
                load_engine: !old(self).engine_loaded,
            }) && *final(self) == *old(self),
    {
        if self.is_listening {
            self.is_listening = false;
            self.listener_active = false;
            ToggleAction::Stop
        } else {
            ToggleAction::Start { load_engine: !self.engine_loaded }
        }
    }

    /// Records that the engine is loaded and the microphone listens.
    pub fn started(&mut self)
        ensures
            final(self).is_listening,
            final(self).engine_loaded,
            final(self).listener_active,
    {
        self.engine_loaded = true;
        self.listener_active = true;
        self.is_listening = true;
    }

    /// What to do with the text transcribed from a chunk (`None` when
    /// transcription failed or no engine is loaded).
    pub fn on_transcript(&self, text: Option<&str>) -> (a: ChunkAction)
        ensures
            !self.is_listening ==> a is Stop,
            self.is_listening ==> match text {
                None => a is Skip,
                Some(t) => if crate::text::trim_spec(t@).len() == 0 {
                    a is Resume
                } else {
                    a matches ChunkAction::Dispatch { text: x } && x@ == t@
                },
            },
    {
        if !self.is_listening {
            return ChunkAction::Stop;
        }
        match text {
            None => ChunkAction::Skip,
            Some(t) => {
                let tc = to_chars(t);
                let trimmed = crate::text::trim_chars(tc.as_slice());
                if trimmed.len() == 0 {
                    ChunkAction::Resume
                } else {
                    ChunkAction::Dispatch { text: t.to_owned() }
                }
            },
        }
    }
}

/// The strings among JSON values, in order.
pub open spec fn strings_of(items: Seq<JVal>) -> Seq<Seq<char>>
    decreases items.len(),
{
    if items.len() == 0 {
        Seq::empty()
    } else {
        let rest = strings_of(items.drop_last());
        match items.last() {
            JVal::Str(s) => rest.push(s),
            _ => rest,
        }
    }
}

pub(crate) fn strings_exec(items: &Vec<JsonValue>) -> (r: Vec<String>)
    ensures
        crate::changes::strs(r@) == strings_of(jvs(items@)),
{
    proof {
        lemma_jvs(items@);
    }
    let ghost s = jvs(items@);
    let mut out: Vec<String> = Vec::new();
    let mut i: usize = 0;
    assert(s.subrange(0, 0) =~= Seq::<JVal>::empty());
    assert(crate::changes::strs(out@) =~= Seq::<Seq<char>>::empty());
    while i < items.len()
        invariant
            i <= items@.len(),
            s == jvs(items@),
            s.len() == items@.len(),
            forall|j: int| 0 <= j < items@.len() ==> #[trigger] s[j] == items@[j]@,
            crate::changes::strs(out@) == strings_of(s.subrange(0, i as int)),
        decreases items.len() - i,
    {
        assert(s.subrange(0, i + 1).drop_last() =~= s.subrange(0, i as int));
        assert(s.subrange(0, i + 1).last() == items@[i as int]@);
        match &items[i] {
            JsonValue::String(t) => {
                let ghost before = crate::changes::strs(out@);
                out.push(t.clone());
                assert(crate::changes::strs(out@) =~= before.push(t@));
            },
            _ => {},
        }
        i = i + 1;
    }
    assert(s.subrange(0, items@.len() as int) =~= s);
    out
}

/// The functions and components a genetic optimisation node allocates:
/// the strings of its `functions` and `components` arrays; refused when
/// either is not an array.
pub fn genetics_params(params: &JsonValue) -> (r: Result<(Vec<String>, Vec<String>), RaiseError>)
    ensures
        match member(params@, "functions"@) {
            Some(JVal::Arr(f)) => match member(params@, "components"@) {
                Some(JVal::Arr(c)) => r matches Ok((fs, cs)) && crate::changes::strs(fs@)
                    == strings_of(f) && crate::changes::strs(cs@) == strings_of(c),
                _ => r matches Err(e) && e.code == ErrorCode::GeneticsMissingComponents,
            },
            _ => r matches Err(e) && e.code == ErrorCode::GeneticsMissingFunctions,
        },
{
    let fs = match params.get("functions") {
        Some(JsonValue::Array(a)) => strings_exec(a),
        _ => return Err(RaiseError::new(ErrorCode::GeneticsMissingFunctions, "functions")),
    };
    let cs = match params.get("components") {
        Some(JsonValue::Array(a)) => strings_exec(a),
        _ => return Err(RaiseError::new(ErrorCode::GeneticsMissingComponents, "components")),
    };
    Ok((fs, cs))
}

/// The targets of code generation.
#[derive(Debug, Clone, Copy, PartialEq, Eq, Structural)]
pub enum CodegenDomain {
    Software,
    Hardware,
    System,
}

/// The target named `d` (in lower case): software (`software`, `code`,
/// `rust`, `cpp`), hardware (`hardware`, `vhdl`, `fpga`, `verilog`) or the
/// system view (`system`, `overview`, `doc`, `architecture`).
pub open spec fn codegen_domain_spec(d: Seq<char>) -> Option<CodegenDomain> {
    if d == "software"@ || d == "code"@ || d == "rust"@ || d == "cpp"@ {
        Some(CodegenDomain::Software)
    } else if d == "hardware"@ || d == "vhdl"@ || d == "fpga"@ || d == "verilog"@ {
        Some(CodegenDomain::Hardware)
    } else if d == "system"@ || d == "overview"@ || d == "doc"@ || d == "architecture"@ {
        Some(CodegenDomain::System)
    } else {
        None
    }
}

/// The target of code generation named `domain`, whatever its case;
/// refused for an unknown name.
pub fn codegen_domain(domain: &str) -> (r: Result<CodegenDomain, RaiseError>)
    ensures
        match codegen_domain_spec(crate::text::lowercase_spec(domain@)) {
            Some(t) => r matches Ok(x) && x == t,
            None => r matches Err(e) && e.code == ErrorCode::CodegenDomainUnsupported,
        },
{
    let low = crate::text::to_lowercase(domain);
    let d = low.as_str();
    let eq = |x: &str| -> (b: bool)
        ensures
            b == (d@ == x@),
        { crate::text::str_equal(d, x) };
    if eq("software") || eq("code") || eq("rust") || eq("cpp") {
        Ok(CodegenDomain::Software)
    } else if eq("hardware") || eq("vhdl") || eq("fpga") || eq("verilog") {
        Ok(CodegenDomain::Hardware)
    } else if eq("system") || eq("overview") || eq("doc") || eq("architecture") {
        Ok(CodegenDomain::System)
    } else {
        Err(RaiseError::new(ErrorCode::CodegenDomainUnsupported, domain))
    }
}

/// The space and database a model named `{space}/{db}[/...]` lives in;
/// `default`, `default` for another name.
pub open spec fn space_and_db_spec(name: Seq<char>) -> (Seq<char>, Seq<char>) {
    let parts = crate::text::split_spec(name, '/');
    if parts.len() >= 2 {
        (parts[0], parts[1])
    } else {
        ("default"@, "default"@)
    }
}

/// The space and database of the active model (see `space_and_db_spec`).
pub fn active_space_and_db(model_name: &str) -> (r: (String, String))
    ensures
        r.0@ == space_and_db_spec(model_name@).0,
        r.1@ == space_and_db_spec(model_name@).1,
{
    let parts = crate::text::split_chars(to_chars(model_name).as_slice(), '/');
    if parts.len() >= 2 {
        (from_chars(parts[0].as_slice()), from_chars(parts[1].as_slice()))
    } else {
        ("default".to_owned(), "default".to_owned())
    }
}

/// The system information the front end shows.
#[derive(Debug)]
pub struct SystemInfoResponse {
    pub app_version: String,
    pub env_mode: String,
    pub api_status: String,
    pub database_path: String,
}

/// The system information: the version, the mode and the database path
/// given, with the API reported as connected locally.
pub fn system_info(app_version: &str, env_mode: &str, database_path: &str) -> (r: SystemInfoResponse)
    ensures
        r.app_version@ == app_version@,
        r.env_mode@ == env_mode@,
        r.api_status@ == "Connecté en local"@,
        r.database_path@ == database_path@,
{
    SystemInfoResponse {
        app_version: app_version.to_owned(),
        env_mode: env_mode.to_owned(),
        api_status: "Connecté en local".to_owned(),
        database_path: database_path.to_owned(),
    }
}

} // verus!
