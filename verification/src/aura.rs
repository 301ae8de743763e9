//! The Aura orchestrator: turns commands into LIL intents and asks the
//! capability broker to execute them. Sending and receiving IPC messages is
//! left to the caller; each step here takes what was received and says
//! what to send.

use vstd::prelude::*;
use vstd::string::StringSliceAdditionalSpecFns;
use crate::debug_log::{DebugLog, DebugLogError, log_entries, log_entry};
use crate::intent::{IntentType, intent_code, LILIntent, LILIntentView, ParamKey, ParamValue, ParamValueView, capability_entry, copy_prefix, empty_intent, fixed_field, intent_name, min_nat, overwrite_prefix, str_to_fixed_array};
use crate::message::{BrokerExchange, Message, word_or_zero};
use crate::text::{append_bytes, append_prefix, first_occurrence, occurs_in, str_contains, str_find, suffix_after_ascii, trim_chars, trim_str};
use vstd::utf8::{decode_utf8, encode_utf8};
use crate::tokens::{CapToken, CapTokenView};

verus! {

/// Errors of Aura's operations.
#[derive(Debug, Clone, Copy, PartialEq, Eq, Structural)]
pub enum AuraError {
    BrokerCommunicationFailed,
    InvalidIntent,
    CommandParsingFailed,
    InsufficientPermissions,
    ConfirmationRequired,
    JsonConstructionFailed,
    DebugBufferFull,
}

/// Token the broker creates for Aura at boot.
pub const ORCHESTRATE_TOKEN_ID: u64 = 1;

/// Aura's state.
pub struct AuraOrchestrator {
    pub debug_log: DebugLog,
    pub orchestrate_token_id: u64,
    pub compartment_id: String,
}

// ---------------------------------------------------------------------------
// JSON form of an intent
// ---------------------------------------------------------------------------

/// JSON object describing one required capability.
pub open spec fn capability_json(c: (Seq<u8>, Seq<u8>)) -> Seq<u8> {
    "{\"type\":\"".spec_bytes() + c.0 + "\",\"identifier\":\"".spec_bytes() + c.1 + "\"}".spec_bytes()
}

/// JSON text of an intent: `{"intent":"<name>","required_capabilities":[...]}`,
/// listing its first required capability if it has one.
pub open spec fn intent_json(v: LILIntentView) -> Seq<u8> {
    let name = intent_name(v.intent);
    let caps = if v.required_capabilities.len() > 0 {
        capability_json(v.required_capabilities[0])
    } else {
        Seq::empty()
    };
    "{\"intent\":\"".spec_bytes() + name + "\",\"required_capabilities\":[".spec_bytes() + caps
        + "]}".spec_bytes()
}

/// Length of every intent type's JSON name.
pub proof fn lemma_intent_name_len(t: IntentType)
    ensures
        intent_name(t).len() <= 9,
{
    broadcast use vstd::string::is_ascii_spec_bytes;

    match t {
        IntentType::Open => {
            reveal_strlit("open");
            assert(vstd::string::is_ascii("open"));
        },
        IntentType::Compose => {
            reveal_strlit("compose");
            assert(vstd::string::is_ascii("compose"));
        },
        IntentType::Search => {
            reveal_strlit("search");
            assert(vstd::string::is_ascii("search"));
        },
        IntentType::Move => {
            reveal_strlit("move");
            assert(vstd::string::is_ascii("move"));
        },
        IntentType::Copy => {
            reveal_strlit("copy");
            assert(vstd::string::is_ascii("copy"));
        },
        IntentType::Delete => {
            reveal_strlit("delete");
            assert(vstd::string::is_ascii("delete"));
        },
        IntentType::Send => {
            reveal_strlit("send");
            assert(vstd::string::is_ascii("send"));
        },
        IntentType::Schedule => {
            reveal_strlit("schedule");
            assert(vstd::string::is_ascii("schedule"));
        },
        IntentType::Query => {
            reveal_strlit("query");
            assert(vstd::string::is_ascii("query"));
        },
        IntentType::Configure => {
            reveal_strlit("configure");
            assert(vstd::string::is_ascii("configure"));
        },
        IntentType::Install => {
            reveal_strlit("install");
            assert(vstd::string::is_ascii("install"));
        },
        IntentType::Uninstall => {
            reveal_strlit("uninstall");
            assert(vstd::string::is_ascii("uninstall"));
        },
    }
}

/// The JSON text of a well-formed intent always fits the 512-byte buffer.
pub proof fn lemma_intent_json_fits(v: LILIntentView)
    requires
        v.required_capabilities.len() > 0 ==> v.required_capabilities[0].0.len() <= 32
            && v.required_capabilities[0].1.len() <= 128,
    ensures
        intent_json(v).len() <= 512,
{
    broadcast use vstd::string::is_ascii_spec_bytes;

    lemma_intent_name_len(v.intent);
    reveal_strlit("{\"type\":\"");
    assert(vstd::string::is_ascii("{\"type\":\""));
    reveal_strlit("\",\"identifier\":\"");
    assert(vstd::string::is_ascii("\",\"identifier\":\""));
    reveal_strlit("\"}");
    assert(vstd::string::is_ascii("\"}"));
    reveal_strlit("{\"intent\":\"");
    assert(vstd::string::is_ascii("{\"intent\":\""));
    reveal_strlit("\",\"required_capabilities\":[");
    assert(vstd::string::is_ascii("\",\"required_capabilities\":["));
    reveal_strlit("]}");
    assert(vstd::string::is_ascii("]}"));
}

impl AuraOrchestrator {
    pub open spec fn wf(&self) -> bool {
        self.debug_log.wf()
    }

    /// A fresh orchestrator: empty log, holding the orchestrate token.
    pub fn new() -> (a: AuraOrchestrator)
        ensures
            a.wf(),
            a.debug_log@ == Seq::<u8>::empty(),
            a.orchestrate_token_id == ORCHESTRATE_TOKEN_ID,
            a.compartment_id@ == "aura_orchestrator"@,
    {
        AuraOrchestrator {
            debug_log: DebugLog::new(),
            orchestrate_token_id: ORCHESTRATE_TOKEN_ID,
            compartment_id: "aura_orchestrator".to_string(),
        }
    }

    /// The intent as a JSON object in a zero-filled 512-byte buffer.
    pub fn build_intent_json(&self, intent: &LILIntent) -> (r: Result<[u8; 512], AuraError>)
        requires
            intent.wf(),
        ensures
            r matches Ok(a) && a@ == fixed_field(intent_json(intent@), 512),
            intent_json(intent@).len() <= 512,
    {
        let mut text: Vec<u8> = Vec::new();
        let name = intent.intent.name().as_bytes();
        append_bytes(&mut text, "{\"intent\":\"".as_bytes());
        append_bytes(&mut text, name);
        append_bytes(&mut text, "\",\"required_capabilities\":[".as_bytes());
        let ghost head = text@;
        if intent.required_capabilities.len() > 0 {
            let cap = &intent.required_capabilities[0];
            assert(cap.wf());
            append_bytes(&mut text, "{\"type\":\"".as_bytes());
            append_prefix(&mut text, cap.type_str.as_slice(), cap.type_len);
            append_bytes(&mut text, "\",\"identifier\":\"".as_bytes());
            append_prefix(&mut text, cap.identifier.as_slice(), cap.identifier_len);
            append_bytes(&mut text, "\"}".as_bytes());
            assert(text@ =~= head + capability_json(intent@.required_capabilities[0]));
        }
        append_bytes(&mut text, "]}".as_bytes());
        assert(text@ =~= intent_json(intent@));
        proof {
            if intent@.required_capabilities.len() > 0 {
                assert(intent.required_capabilities@[0].wf());
            }
            lemma_intent_json_fits(intent@);
        }
        let mut json = [0u8; 512];
        copy_prefix(&mut json, text.as_slice());
        assert(json@ =~= fixed_field(intent_json(intent@), 512));
        Ok(json)
    }
}


// ---------------------------------------------------------------------------
// From command to intent
// ---------------------------------------------------------------------------

/// How Aura reads a command.
pub enum CommandKind {
    /// Mentions "hello" and "Mark": compose a greeting.
    Greeting,
    /// Otherwise mentions "search": search for what follows.
    Search,
    /// Anything else: a general query.
    Other,
}

/// How a command (given by its bytes) is read.
pub open spec fn command_kind(cmd: Seq<u8>) -> CommandKind {
    if occurs_in(cmd, "hello".spec_bytes()) && occurs_in(cmd, "Mark".spec_bytes()) {
        CommandKind::Greeting
    } else if occurs_in(cmd, "search".spec_bytes()) {
        CommandKind::Search
    } else {
        CommandKind::Other
    }
}

/// The search terms of a search command: what follows the first "search",
/// without surrounding whitespace.
pub open spec fn search_query(cmd: Seq<u8>) -> Seq<u8> {
    let start = first_occurrence(cmd, "search".spec_bytes())->0;
    encode_utf8(trim_chars(decode_utf8(cmd.subrange(start + 6, cmd.len() as int))))
}

/// A text parameter value with the stated length.
pub open spec fn text_param(b: Seq<u8>, len: nat) -> ParamValueView {
    ParamValueView::Text(fixed_field(b, 128), len as usize)
}

/// The context every built intent gets: session "session_123" and the
/// command as echo.
pub open spec fn with_context(v: LILIntentView, cmd: Seq<u8>) -> LILIntentView {
    LILIntentView {
        session_id: overwrite_prefix(v.session_id, "session_123".spec_bytes()),
        echo: overwrite_prefix(v.echo, cmd),
        echo_len: (v.echo_len + min_nat(cmd.len(), 256)) as usize,
        ..v
    }
}

/// The greeting intent for a command.
pub open spec fn greeting_intent(cmd: Seq<u8>) -> LILIntentView {
    with_context(
        LILIntentView {
            intent: IntentType::Compose,
            params: seq![
                (ParamKey::To, text_param("Mark".spec_bytes(), 4)),
                (ParamKey::Subject, text_param("Hello".spec_bytes(), 5)),
                (ParamKey::Body, text_param("Hello Mark! How are you today?".spec_bytes(), 30)),
            ],
            required_capabilities: seq![
                capability_entry("contacts:read".spec_bytes(), "all".spec_bytes()),
                capability_entry("net:outbound".spec_bytes(), "smtp.example.com".spec_bytes()),
            ],
            ..empty_intent()
        },
        cmd,
    )
}

/// The search intent for a command.
pub open spec fn search_intent(cmd: Seq<u8>) -> LILIntentView {
    with_context(
        LILIntentView {
            intent: IntentType::Search,
            params: seq![(ParamKey::Query, text_param(search_query(cmd), search_query(cmd).len()))],
            required_capabilities: seq![
                capability_entry("fs:read".spec_bytes(), "/home/user/Documents".spec_bytes()),
            ],
            ..empty_intent()
        },
        cmd,
    )
}

/// The general query intent for a command.
pub open spec fn query_intent(cmd: Seq<u8>) -> LILIntentView {
    with_context(
        LILIntentView {
            intent: IntentType::Query,
            params: seq![(ParamKey::Query, text_param(cmd, cmd.len()))],
            required_capabilities: seq![
                capability_entry("net:outbound".spec_bytes(), "api.search.example.com".spec_bytes()),
            ],
            ..empty_intent()
        },
        cmd,
    )
}

/// The intent Aura builds for a command.
pub open spec fn command_intent(cmd: Seq<u8>) -> LILIntentView {
    match command_kind(cmd) {
        CommandKind::Greeting => greeting_intent(cmd),
        CommandKind::Search => search_intent(cmd),
        CommandKind::Other => query_intent(cmd),
    }
}

fn build_greeting_intent(command: &str) -> (intent: LILIntent)
    ensures
        intent.wf(),
        intent@ == greeting_intent(command.spec_bytes()),
{
    let mut intent = LILIntent::new();
    intent.intent = IntentType::Compose;
    intent.confirmation_required = false;
    let r = intent.add_param(ParamKey::To, ParamValue::String(str_to_fixed_array("Mark"), 4));
    assert(r is Ok);
    let r = intent.add_param(ParamKey::Subject, ParamValue::String(str_to_fixed_array("Hello"), 5));
    assert(r is Ok);
    let r = intent.add_param(
        ParamKey::Body,
        ParamValue::String(str_to_fixed_array("Hello Mark! How are you today?"), 30),
    );
    assert(r is Ok);
    let r = intent.add_required_capability("contacts:read", "all");
    assert(r is Ok);
    let r = intent.add_required_capability("net:outbound", "smtp.example.com");
    assert(r is Ok);
    let r = intent.set_context("session_123", command);
    assert(intent@.params =~= greeting_intent(command.spec_bytes()).params);
    assert(intent@.required_capabilities =~= greeting_intent(command.spec_bytes()).required_capabilities);
    intent
}

proof fn lemma_search_bytes()
    ensures
        "search".spec_bytes().len() == 6,
        "search".spec_bytes()[5] == 104u8,
{
    broadcast use vstd::string::is_ascii_spec_bytes;

    reveal_strlit("search");
    assert(vstd::string::is_ascii("search"));
}

/// The search terms of a command: what follows its first "search", trimmed,
/// or "unknown" when it has none.
pub fn search_terms(command: &str) -> (query: &str)
    ensures
        occurs_in(command.spec_bytes(), "search".spec_bytes()) ==> query.spec_bytes()
            == search_query(command.spec_bytes()),
        !occurs_in(command.spec_bytes(), "search".spec_bytes()) ==> query@ == "unknown"@,
{
    let ghost cmd = command.spec_bytes();
    let _length = command.as_bytes().len();
    match str_find(command, "search") {
        Some(start) => {
            proof {
                lemma_search_bytes();
                crate::text::lemma_first_occurrence(cmd, "search".spec_bytes());
                assert(cmd.subrange(start as int, start + 6) == "search".spec_bytes());
                assert(cmd[start + 5] == cmd.subrange(start as int, start + 6)[5]);
            }
            let after = suffix_after_ascii(command, start + 6);
            proof {
                vstd::utf8::encode_utf8_decode_utf8(after@);
            }
            trim_str(after)
        },
        None => {
            proof {
                crate::text::lemma_first_occurrence(cmd, "search".spec_bytes());
            }
            "unknown"
        },
    }
}

fn build_search_intent(command: &str) -> (intent: LILIntent)
    requires
        occurs_in(command.spec_bytes(), "search".spec_bytes()),
    ensures
        intent.wf(),
        intent@ == search_intent(command.spec_bytes()),
{
    let ghost cmd = command.spec_bytes();
    let mut intent = LILIntent::new();
    intent.intent = IntentType::Search;
    intent.confirmation_required = false;
    let query = search_terms(command);
    assert(query.spec_bytes() == search_query(cmd));
    let r = intent.add_param(ParamKey::Query, ParamValue::String(str_to_fixed_array(query), query.len()));
    assert(r is Ok);
    let r = intent.add_required_capability("fs:read", "/home/user/Documents");
    assert(r is Ok);
    let r = intent.set_context("session_123", command);
    assert(intent@.params =~= search_intent(cmd).params);
    assert(intent@.required_capabilities =~= search_intent(cmd).required_capabilities);
    intent
}

fn build_query_intent(command: &str) -> (intent: LILIntent)
    ensures
        intent.wf(),
        intent@ == query_intent(command.spec_bytes()),
{
    let mut intent = LILIntent::new();
    intent.intent = IntentType::Query;
    intent.confirmation_required = false;
    let r = intent.add_param(ParamKey::Query, ParamValue::String(str_to_fixed_array(command), command.len()));
    assert(r is Ok);
    let r = intent.add_required_capability("net:outbound", "api.search.example.com");
    assert(r is Ok);
    let r = intent.set_context("session_123", command);
    assert(intent@.params =~= query_intent(command.spec_bytes()).params);
    assert(intent@.required_capabilities =~= query_intent(command.spec_bytes()).required_capabilities);
    intent
}

/// The intent Aura builds for `command`.
pub fn intent_for_command(command: &str) -> (intent: LILIntent)
    ensures
        intent.wf(),
        intent@ == command_intent(command.spec_bytes()),
{
    if str_contains(command, "hello") && str_contains(command, "Mark") {
        build_greeting_intent(command)
    } else if str_contains(command, "search") {
        build_search_intent(command)
    } else {
        build_query_intent(command)
    }
}

// ---------------------------------------------------------------------------
// Orchestrator steps
// ---------------------------------------------------------------------------

/// Logging `msgs` in turn: the new log, and `DebugBufferFull` if one of
/// them did not fit.
pub open spec fn after_logs(log: Seq<u8>, msgs: Seq<Seq<u8>>) -> (Seq<u8>, Result<(), AuraError>) {
    let (c, ok) = log_entries(log, msgs);
    (c, if ok { Ok(()) } else { Err(AuraError::DebugBufferFull) })
}

/// Logging one message and then the rest.
pub proof fn lemma_after_logs_step(log: Seq<u8>, m: Seq<u8>, rest: Seq<Seq<u8>>)
    ensures
        after_logs(log, seq![m] + rest) == (match log_entry(log, m) {
            Some(c) => after_logs(c, rest),
            None => (log, Err::<(), AuraError>(AuraError::DebugBufferFull)),
        }),
        after_logs(log, Seq::empty()) == (log, Ok::<(), AuraError>(())),
{
    assert((seq![m] + rest).drop_first() =~= rest);
    assert((seq![m] + rest)[0] == m);
}

/// The boot message says initialization is complete: its first word is 1.
pub open spec fn boot_accepted(m: Option<Seq<u64>>) -> bool {
    m matches Some(w) && word_or_zero(w, 0) == 1
}

/// The words of a received message, if one was received.
pub open spec fn received_words(m: Option<&Message>) -> Option<Seq<u64>> {
    match m {
        Some(msg) => Some(msg@),
        None => None,
    }
}

/// Checking the boot message.
pub open spec fn receive_boot_outcome(log: Seq<u8>, m: Option<Seq<u64>>) -> (Seq<u8>, Result<(), AuraError>) {
    if !boot_accepted(m) {
        (log, Err(AuraError::BrokerCommunicationFailed))
    } else {
        after_logs(log, seq!["Received boot init message from root task".spec_bytes()])
    }
}

/// Initializing with the boot message.
pub open spec fn initialize_outcome(log: Seq<u8>, m: Option<Seq<u64>>) -> (Seq<u8>, Result<(), AuraError>) {
    let (c1, r1) = after_logs(log, seq!["Aura Orchestrator initializing...".spec_bytes()]);
    if r1 is Err {
        (c1, r1)
    } else {
        let (c2, r2) = receive_boot_outcome(c1, m);
        if r2 is Err {
            (c2, r2)
        } else {
            after_logs(
                c2,
                seq![
                    "Aura Orchestrator initialized successfully".spec_bytes(),
                    "Holding orchestrate token ID: ".spec_bytes(),
                ],
            )
        }
    }
}

/// The log line announcing which intent was built.
pub open spec fn built_message(cmd: Seq<u8>) -> Seq<u8> {
    match command_kind(cmd) {
        CommandKind::Greeting => "Built compose intent for greeting".spec_bytes(),
        CommandKind::Search => "Built search intent".spec_bytes(),
        CommandKind::Other => "Built query intent for unknown command".spec_bytes(),
    }
}

/// Building an intent for a command.
pub open spec fn build_outcome(log: Seq<u8>, cmd: Seq<u8>) -> (Seq<u8>, Result<LILIntentView, AuraError>) {
    let (c, r) = after_logs(log, seq!["Building LIL intent from command".spec_bytes(), built_message(cmd)]);
    (c, if r is Ok { Ok(command_intent(cmd)) } else { Err(AuraError::DebugBufferFull) })
}

/// The request asking the broker to execute an intent of the given code.
pub open spec fn intent_request_words(code: u8) -> Seq<u64> {
    seq![1u64, 1u64, code as u64, 0u64]
}

/// The request that asks the broker to execute an intent.
pub open spec fn intent_request(v: LILIntentView) -> Seq<u64> {
    intent_request_words(intent_code(v.intent))
}

/// Preparing the broker request for an intent.
pub open spec fn execute_outcome(log: Seq<u8>, v: LILIntentView) -> (Seq<u8>, Result<Seq<u64>, AuraError>) {
    let first = if v.confirmation_required {
        seq![
            "Executing LIL intent".spec_bytes(),
            "User confirmation required for this intent".spec_bytes(),
            "User confirmation received (assumed)".spec_bytes(),
        ]
    } else {
        seq!["Executing LIL intent".spec_bytes()]
    };
    let (c1, r1) = after_logs(log, first);
    if r1 is Err {
        (c1, Err(AuraError::DebugBufferFull))
    } else if v.required_capabilities.len() == 0 {
        (c1, Err(AuraError::InvalidIntent))
    } else {
        let (c2, r2) = after_logs(c1, seq!["Sending intent to broker".spec_bytes()]);
        (c2, if r2 is Ok { Ok(intent_request(v)) } else { Err(AuraError::DebugBufferFull) })
    }
}

/// Reading the broker's answer to an intent request: success is a first
/// word of 1, and the second word is the new token's identifier.
pub open spec fn accept_outcome(
    log: Seq<u8>,
    reply: Option<Seq<u64>>,
    compartment: Seq<char>,
    parent_id: u64,
) -> (Seq<u8>, Result<CapTokenView, AuraError>) {
    match reply {
        None => (log, Err(AuraError::BrokerCommunicationFailed)),
        Some(w) => if word_or_zero(w, 0) != 1 {
            (log, Err(AuraError::BrokerCommunicationFailed))
        } else {
            let (c, r) = after_logs(log, seq!["Intent execution successful".spec_bytes()]);
            (c, if r is Ok {
                Ok(CapTokenView {
                    id: word_or_zero(w, 1),
                    description: "Intent execution token"@,
                    compartment: compartment,
                    delegatable: false,
                    parent_id: parent_id,
                })
            } else {
                Err(AuraError::DebugBufferFull)
            })
        },
    }
}

/// Handling a voice command up to the request for the broker.
pub open spec fn voice_command_outcome(log: Seq<u8>, text: Seq<u8>) -> (Seq<u8>, Result<Seq<u64>, AuraError>) {
    let (c1, r1) = after_logs(log, seq!["Processing voice command: ".spec_bytes(), text]);
    if r1 is Err {
        (c1, Err(AuraError::DebugBufferFull))
    } else {
        let (c2, r2) = build_outcome(c1, text);
        match r2 {
            Err(e) => (c2, Err(e)),
            Ok(v) => execute_outcome(c2, v),
        }
    }
}

/// Finishing a voice command with the broker's answer.
pub open spec fn finish_outcome(
    log: Seq<u8>,
    reply: Option<Seq<u64>>,
    compartment: Seq<char>,
    parent_id: u64,
) -> (Seq<u8>, Result<(), AuraError>) {
    let (c1, r1) = accept_outcome(log, reply, compartment, parent_id);
    match r1 {
        Err(e) => (c1, Err(e)),
        Ok(_) => after_logs(c1, seq!["Intent executed successfully with token ID: ".spec_bytes()]),
    }
}

impl AuraOrchestrator {
    /// The identity fields are the same in both states.
    pub open spec fn same_identity(&self, other: &AuraOrchestrator) -> bool {
        &&& self.orchestrate_token_id == other.orchestrate_token_id
        &&& self.compartment_id@ == other.compartment_id@
    }

    fn log(&mut self, message: &str) -> (r: Result<(), AuraError>)
        requires
            old(self).wf(),
        ensures
            final(self).wf(),
            final(self).same_identity(old(self)),
            (final(self).debug_log@, r) == after_logs(old(self).debug_log@, seq![message.spec_bytes()]),
    {
        proof {
            lemma_after_logs_step(old(self).debug_log@, message.spec_bytes(), Seq::empty());
            assert(seq![message.spec_bytes()] =~= seq![message.spec_bytes()] + Seq::<Seq<u8>>::empty());
            if let Some(c) = log_entry(old(self).debug_log@, message.spec_bytes()) {
                lemma_after_logs_step(c, message.spec_bytes(), Seq::empty());
            }
        }
        match self.debug_log.log(message) {
            Ok(()) => Ok(()),
            Err(_) => Err(AuraError::DebugBufferFull),
        }
    }

    /// Checks the boot message received from the root task (`None` when
    /// receiving failed): it must start with the word 1.
    pub fn receive_boot_init(&mut self, boot_message: Option<&Message>) -> (r: Result<(), AuraError>)
        requires
            old(self).wf(),
        ensures
            final(self).wf(),
            final(self).same_identity(old(self)),
            (final(self).debug_log@, r) == receive_boot_outcome(old(self).debug_log@, received_words(boot_message)),
    {
        let first = match boot_message {
            Some(m) => m.get_int(0).unwrap_or(0),
            None => {
                return Err(AuraError::BrokerCommunicationFailed);
            },
        };
        if first != 1 {
            return Err(AuraError::BrokerCommunicationFailed);
        }
        self.log("Received boot init message from root task")
    }

    /// Initializes Aura with the boot message received from the root task.
    pub fn initialize(&mut self, boot_message: Option<&Message>) -> (r: Result<(), AuraError>)
        requires
            old(self).wf(),
        ensures
            final(self).wf(),
            final(self).same_identity(old(self)),
            (final(self).debug_log@, r) == initialize_outcome(old(self).debug_log@, received_words(boot_message)),
    {
        let r = self.log("Aura Orchestrator initializing...");
        if r.is_err() {
            return r;
        }
        let r = self.receive_boot_init(boot_message);
        if r.is_err() {
            return r;
        }
        let ghost log2 = self.debug_log@;
        let r = self.log("Aura Orchestrator initialized successfully");
        proof {
            lemma_after_logs_step(log2, "Aura Orchestrator initialized successfully".spec_bytes(), seq!["Holding orchestrate token ID: ".spec_bytes()]);
            assert(seq!["Aura Orchestrator initialized successfully".spec_bytes(), "Holding orchestrate token ID: ".spec_bytes()]
                =~= seq!["Aura Orchestrator initialized successfully".spec_bytes()] + seq!["Holding orchestrate token ID: ".spec_bytes()]);
            lemma_after_logs_step(log2, "Aura Orchestrator initialized successfully".spec_bytes(), Seq::empty());
            assert(seq!["Aura Orchestrator initialized successfully".spec_bytes()] =~= seq!["Aura Orchestrator initialized successfully".spec_bytes()] + Seq::<Seq<u8>>::empty());
        }
        if r.is_err() {
            return r;
        }
        self.log("Holding orchestrate token ID: ")
    }

    /// Builds the intent for a command, logging before and after.
    pub fn build_intent(&mut self, command: &str) -> (r: Result<LILIntent, AuraError>)
        requires
            old(self).wf(),
        ensures
            final(self).wf(),
            final(self).same_identity(old(self)),
            final(self).debug_log@ == build_outcome(old(self).debug_log@, command.spec_bytes()).0,
            match build_outcome(old(self).debug_log@, command.spec_bytes()).1 {
                Ok(v) => r matches Ok(intent) && intent@ == v && intent.wf(),
                Err(e) => r matches Err(e2) && e2 == e,
            },
    {
        let ghost cmd = command.spec_bytes();
        let ghost log0 = self.debug_log@;
        let first = self.log("Building LIL intent from command");
        proof {
            lemma_after_logs_step(log0, "Building LIL intent from command".spec_bytes(), seq![built_message(cmd)]);
            assert(seq!["Building LIL intent from command".spec_bytes(), built_message(cmd)]
                =~= seq!["Building LIL intent from command".spec_bytes()] + seq![built_message(cmd)]);
            lemma_after_logs_step(log0, "Building LIL intent from command".spec_bytes(), Seq::empty());
            assert(seq!["Building LIL intent from command".spec_bytes()]
                =~= seq!["Building LIL intent from command".spec_bytes()] + Seq::<Seq<u8>>::empty());
        }
        if first.is_err() {
            return Err(AuraError::DebugBufferFull);
        }
        let greeting = str_contains(command, "hello") && str_contains(command, "Mark");
        let search = !greeting && str_contains(command, "search");
        let intent = intent_for_command(command);
        let done = if greeting {
            self.log("Built compose intent for greeting")
        } else if search {
            self.log("Built search intent")
        } else {
            self.log("Built query intent for unknown command")
        };
        match done {
            Ok(()) => Ok(intent),
            Err(e) => Err(e),
        }
    }

    /// Builds the broker request: the request type followed by the
    /// parameters. Sending it and receiving the answer is the caller's.
    pub fn send_broker_request(&self, request_type: u32, params: &[usize]) -> (r: Result<Message, AuraError>)
        ensures
            r is Ok <==> params@.len() + 1 <= crate::message::MESSAGE_MAX_WORDS,
            r matches Ok(m) ==> m@ == seq![request_type as u64] + params@.map_values(|p: usize| p as u64),
            r matches Err(e) ==> e == AuraError::BrokerCommunicationFailed,
    {
        match crate::message::request_message(request_type, params) {
            Ok(m) => Ok(m),
            Err(_) => Err(AuraError::BrokerCommunicationFailed),
        }
    }

    /// Prepares the execution of an intent: logs, checks that it declares a
    /// capability, and returns the request to send to the broker.
    pub fn execute_intent(&mut self, intent: &LILIntent) -> (r: Result<Message, AuraError>)
        requires
            old(self).wf(),
            intent.wf(),
        ensures
            final(self).wf(),
            final(self).same_identity(old(self)),
            final(self).debug_log@ == execute_outcome(old(self).debug_log@, intent@).0,
            match execute_outcome(old(self).debug_log@, intent@).1 {
                Ok(words) => r matches Ok(m) && m@ == words,
                Err(e) => r matches Err(e2) && e2 == e,
            },
    {
        let ghost log0 = self.debug_log@;
        let ghost exec = "Executing LIL intent".spec_bytes();
        let ghost req = "User confirmation required for this intent".spec_bytes();
        let ghost rec = "User confirmation received (assumed)".spec_bytes();
        let r = self.log("Executing LIL intent");
        proof {
            lemma_after_logs_step(log0, exec, seq![req, rec]);
            assert(seq![exec, req, rec] =~= seq![exec] + seq![req, rec]);
            lemma_after_logs_step(log0, exec, Seq::empty());
            assert(seq![exec] =~= seq![exec] + Seq::<Seq<u8>>::empty());
        }
        if r.is_err() {
            return Err(AuraError::DebugBufferFull);
        }
        if intent.confirmation_required {
            let ghost log1 = self.debug_log@;
            let r = self.log("User confirmation required for this intent");
            proof {
                lemma_after_logs_step(log1, req, seq![rec]);
                assert(seq![req, rec] =~= seq![req] + seq![rec]);
                lemma_after_logs_step(log1, req, Seq::empty());
                assert(seq![req] =~= seq![req] + Seq::<Seq<u8>>::empty());
            }
            if r.is_err() {
                return Err(AuraError::DebugBufferFull);
            }
            let r = self.log("User confirmation received (assumed)");
            if r.is_err() {
                return Err(AuraError::DebugBufferFull);
            }
        }
        if intent.required_capabilities.len() == 0 {
            return Err(AuraError::InvalidIntent);
        }
        let _json = self.build_intent_json(intent);
        let r = self.log("Sending intent to broker");
        if r.is_err() {
            return Err(AuraError::DebugBufferFull);
        }
        let code = intent.intent.code();
        let params: [usize; 3] = [1, code as usize, 0];
        let request = self.send_broker_request(1, params.as_slice());
        assert(params@.map_values(|p: usize| p as u64) =~= seq![1u64, code as u64, 0u64]);
        assert(seq![1u64] + seq![1u64, code as u64, 0u64] =~= intent_request(intent@));
        request
    }

    /// Reads the broker's answer to an intent request and issues the
    /// execution token.
    pub fn accept_intent_response(&mut self, exchange: &BrokerExchange) -> (r: Result<CapToken, AuraError>)
        requires
            old(self).wf(),
        ensures
            final(self).wf(),
            final(self).same_identity(old(self)),
            final(self).debug_log@ == accept_outcome(
                old(self).debug_log@, exchange.reply(), old(self).compartment_id@, old(self).orchestrate_token_id).0,
            match accept_outcome(old(self).debug_log@, exchange.reply(), old(self).compartment_id@, old(self).orchestrate_token_id).1 {
                Ok(t) => r matches Ok(token) && token@ == t,
                Err(e) => r matches Err(e2) && e2 == e,
            },
    {
        let response = match exchange {
            BrokerExchange::Reply(m) => m,
            _ => {
                return Err(AuraError::BrokerCommunicationFailed);
            },
        };
        let success = response.get_int(0).unwrap_or(0);
        if success != 1 {
            return Err(AuraError::BrokerCommunicationFailed);
        }
        let token_id = response.get_int(1).unwrap_or(0);
        let token = CapToken {
            id: token_id,
            description: "Intent execution token".to_string(),
            compartment: self.compartment_id.clone(),
            delegatable: false,
            parent_id: self.orchestrate_token_id,
        };
        let r = self.log("Intent execution successful");
        if r.is_err() {
            return Err(AuraError::DebugBufferFull);
        }
        Ok(token)
    }

    /// Handles a voice command: logs it, builds its intent and returns the
    /// request to send to the broker.
    pub fn handle_voice_command(&mut self, text: &str) -> (r: Result<Message, AuraError>)
        requires
            old(self).wf(),
        ensures
            final(self).wf(),
            final(self).same_identity(old(self)),
            final(self).debug_log@ == voice_command_outcome(old(self).debug_log@, text.spec_bytes()).0,
            match voice_command_outcome(old(self).debug_log@, text.spec_bytes()).1 {
                Ok(words) => r matches Ok(m) && m@ == words,
                Err(e) => r matches Err(e2) && e2 == e,
            },
    {
        let ghost log0 = self.debug_log@;
        let ghost p = "Processing voice command: ".spec_bytes();
        let r = self.log("Processing voice command: ");
        proof {
            lemma_after_logs_step(log0, p, seq![text.spec_bytes()]);
            assert(seq![p, text.spec_bytes()] =~= seq![p] + seq![text.spec_bytes()]);
            lemma_after_logs_step(log0, p, Seq::empty());
            assert(seq![p] =~= seq![p] + Seq::<Seq<u8>>::empty());
        }
        if r.is_err() {
            return Err(AuraError::DebugBufferFull);
        }
        let r = self.log(text);
        if r.is_err() {
            return Err(AuraError::DebugBufferFull);
        }
        let intent = match self.build_intent(text) {
            Ok(intent) => intent,
            Err(e) => {
                return Err(e);
            },
        };
        self.execute_intent(&intent)
    }

    /// Finishes a voice command with the broker's answer.
    pub fn finish_voice_command(&mut self, exchange: &BrokerExchange) -> (r: Result<(), AuraError>)
        requires
            old(self).wf(),
        ensures
            final(self).wf(),
            final(self).same_identity(old(self)),
            (final(self).debug_log@, r) == finish_outcome(
                old(self).debug_log@, exchange.reply(), old(self).compartment_id@, old(self).orchestrate_token_id),
    {
        let _token = match self.accept_intent_response(exchange) {
            Ok(token) => token,
            Err(e) => {
                return Err(e);
            },
        };
        self.log("Intent executed successfully with token ID: ")
    }
}

} // verus!

verus! {

/// Every intent Aura builds declares a required capability, so executing
/// it never fails for want of one; it also has at most three parameters.
pub proof fn lemma_built_intent_executable(cmd: Seq<u8>)
    ensures
        command_intent(cmd).required_capabilities.len() > 0,
        command_intent(cmd).params.len() <= 3,
        !command_intent(cmd).confirmation_required,
{
}

/// The JSON text of every intent Aura builds fits its buffer.
pub proof fn lemma_built_intent_json_fits(cmd: Seq<u8>)
    ensures
        intent_json(command_intent(cmd)).len() <= 512,
{
    let v = command_intent(cmd);
    let c = v.required_capabilities[0];
    assert(c.0.len() <= 32 && c.1.len() <= 128);
    lemma_intent_json_fits(v);
}

/// How a command is read: it becomes a greeting (a compose intent) exactly
/// when it mentions both "hello" and "Mark"; otherwise, when it mentions
/// "search", a search for what follows, needing read access to the user's
/// documents; otherwise a query carrying the whole command, needing
/// outbound network access.
pub proof fn lemma_command_reading(cmd: Seq<u8>)
    ensures
        (command_intent(cmd).intent == IntentType::Compose) <==> (occurs_in(cmd, "hello".spec_bytes()) && occurs_in(
            cmd,
            "Mark".spec_bytes(),
        )),
        !(occurs_in(cmd, "hello".spec_bytes()) && occurs_in(cmd, "Mark".spec_bytes())) && occurs_in(
            cmd,
            "search".spec_bytes(),
        ) ==> {
            &&& command_intent(cmd).intent == IntentType::Search
            &&& command_intent(cmd).params == seq![(ParamKey::Query, text_param(search_query(cmd), search_query(cmd).len()))]
            &&& command_intent(cmd).required_capabilities == seq![
                capability_entry("fs:read".spec_bytes(), "/home/user/Documents".spec_bytes()),
            ]
        },
        !(occurs_in(cmd, "hello".spec_bytes()) && occurs_in(cmd, "Mark".spec_bytes())) && !occurs_in(
            cmd,
            "search".spec_bytes(),
        ) ==> {
            &&& command_intent(cmd).intent == IntentType::Query
            &&& command_intent(cmd).params == seq![(ParamKey::Query, text_param(cmd, cmd.len()))]
        },
{
}

} // verus!
