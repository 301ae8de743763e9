//! The desktop shell: asks the capability broker for app-launch
//! capabilities and reacts to voice commands. Sending and receiving IPC
//! messages is left to the caller; each step here takes what was received
//! and says what to send.

use vstd::prelude::*;
use vstd::string::StringSliceAdditionalSpecFns;
use crate::debug_log::{DebugLog, log_entries, log_entry, lemma_log_entries_step, number_text};
use crate::message::{BrokerExchange, Message, MESSAGE_MAX_WORDS, request_message, word_or_zero};
use crate::text::{occurs_in, push_str, str_contains, str_equal};
use crate::tokens::{CapToken, CapTokenView};

verus! {

/// Errors of the shell's operations.
#[derive(Debug, Clone, Copy, PartialEq, Eq, Structural)]
pub enum ShellError {
    BrokerCommunicationFailed,
    InvalidBrokerResponse,
    CapabilityRequestFailed,
    InvalidAppId,
    InvalidUniverse,
    InitializationFailed,
    DebugBufferFull,
}

/// Numeric code of each shell error.
pub open spec fn shell_error_code(e: ShellError) -> u64 {
    match e {
        ShellError::BrokerCommunicationFailed => 0,
        ShellError::InvalidBrokerResponse => 1,
        ShellError::CapabilityRequestFailed => 2,
        ShellError::InvalidAppId => 3,
        ShellError::InvalidUniverse => 4,
        ShellError::InitializationFailed => 5,
        ShellError::DebugBufferFull => 6,
    }
}

impl ShellError {
    /// The error's numeric code.
    pub fn code(&self) -> (c: u64)
        ensures
            c == shell_error_code(*self),
    {
        match self {
            ShellError::BrokerCommunicationFailed => 0,
            ShellError::InvalidBrokerResponse => 1,
            ShellError::CapabilityRequestFailed => 2,
            ShellError::InvalidAppId => 3,
            ShellError::InvalidUniverse => 4,
            ShellError::InitializationFailed => 5,
            ShellError::DebugBufferFull => 6,
        }
    }
}

/// Logging `msgs` in turn: the new log, and `DebugBufferFull` if one of
/// them did not fit.
pub open spec fn shell_logs(log: Seq<u8>, msgs: Seq<Seq<u8>>) -> (Seq<u8>, Result<(), ShellError>) {
    let (c, ok) = log_entries(log, msgs);
    (c, if ok { Ok(()) } else { Err(ShellError::DebugBufferFull) })
}

/// Code of each universe an app can run in.
pub open spec fn universe_code(universe: Seq<char>) -> Option<u64> {
    if universe == "native"@ {
        Some(1)
    } else if universe == "linux"@ {
        Some(2)
    } else if universe == "windows"@ {
        Some(3)
    } else if universe == "android"@ {
        Some(4)
    } else {
        None
    }
}

/// Code of each known app.
pub open spec fn app_code(app_id: Seq<char>) -> Option<u64> {
    if app_id == "hello_world"@ {
        Some(1)
    } else if app_id == "calculator"@ {
        Some(2)
    } else if app_id == "browser"@ {
        Some(3)
    } else {
        None
    }
}

/// Building a broker request: logged, then the request type followed by
/// the parameters.
pub open spec fn send_request_outcome(log: Seq<u8>, request_type: u32, params: Seq<usize>) -> (Seq<u8>, Result<Seq<u64>, ShellError>) {
    let (c, r) = shell_logs(log, seq!["Sending request to broker".spec_bytes(), number_text(request_type as nat)]);
    if r is Err {
        (c, Err(ShellError::DebugBufferFull))
    } else if params.len() + 1 > MESSAGE_MAX_WORDS {
        (c, Err(ShellError::BrokerCommunicationFailed))
    } else {
        (c, Ok(seq![request_type as u64] + params.map_values(|p: usize| p as u64)))
    }
}

/// Asking for an app-launch capability, up to the request for the broker.
pub open spec fn app_launch_request_outcome(log: Seq<u8>, universe: &str, app_id: &str) -> (Seq<u8>, Result<Seq<u64>, ShellError>) {
    let (c, r) = shell_logs(
        log,
        seq![
            "Requesting app launch capability".spec_bytes(),
            "Universe: ".spec_bytes(),
            universe.spec_bytes(),
            "App ID: ".spec_bytes(),
            app_id.spec_bytes(),
        ],
    );
    if r is Err {
        (c, Err(ShellError::DebugBufferFull))
    } else if universe@.len() == 0 || app_id@.len() == 0 {
        (c, Err(ShellError::InvalidAppId))
    } else {
        match universe_code(universe@) {
            None => (c, Err(ShellError::InvalidUniverse)),
            Some(u) => match app_code(app_id@) {
                None => (c, Err(ShellError::InvalidAppId)),
                Some(a) => send_request_outcome(c, 1, seq![u as usize, a as usize, 1usize]),
            },
        }
    }
}

/// The token the shell records for a granted app launch.
pub open spec fn app_launch_token(id: u64, universe: Seq<char>, app_id: Seq<char>, compartment: Seq<char>) -> CapTokenView {
    CapTokenView {
        id: id,
        description: "App launch capability for "@ + app_id + " in "@ + universe,
        compartment: compartment,
        delegatable: false,
        parent_id: 0,
    }
}

/// Reading the broker's answer to an app-launch request: success is a
/// first word of 1, and the second word is the token's identifier.
pub open spec fn app_launch_response_outcome(
    log: Seq<u8>,
    universe: Seq<char>,
    app_id: Seq<char>,
    compartment: Seq<char>,
    exchange: BrokerExchange,
) -> (Seq<u8>, Result<CapTokenView, ShellError>) {
    if !exchange.was_sent() {
        (log, Err(ShellError::BrokerCommunicationFailed))
    } else {
        let (c1, r1) = shell_logs(log, seq!["Request sent, waiting for response".spec_bytes()]);
        if r1 is Err {
            (c1, Err(ShellError::DebugBufferFull))
        } else {
            match exchange.reply() {
                None => (c1, Err(ShellError::BrokerCommunicationFailed)),
                Some(w) => {
                    let (c2, r2) = shell_logs(c1, seq!["Received response from broker".spec_bytes()]);
                    if r2 is Err {
                        (c2, Err(ShellError::DebugBufferFull))
                    } else if word_or_zero(w, 0) != 1 {
                        (c2, Err(ShellError::CapabilityRequestFailed))
                    } else {
                        let (c3, r3) = shell_logs(c2, seq!["Successfully created app launch capability".spec_bytes()]);
                        (c3, if r3 is Ok {
                            Ok(app_launch_token(word_or_zero(w, 1), universe, app_id, compartment))
                        } else {
                            Err(ShellError::DebugBufferFull)
                        })
                    }
                },
            }
        }
    }
}

/// How the shell classifies a voice command in its log.
pub open spec fn voice_command_note(text: Seq<u8>) -> Seq<u8> {
    if occurs_in(text, "hello".spec_bytes()) {
        "Detected greeting command".spec_bytes()
    } else if occurs_in(text, "launch".spec_bytes()) {
        "Detected launch command".spec_bytes()
    } else {
        "Unknown command".spec_bytes()
    }
}

/// The shell's state.
pub struct DesktopShell {
    pub debug_log: DebugLog,
    pub compartment_id: String,
}

impl DesktopShell {
    pub open spec fn wf(&self) -> bool {
        self.debug_log.wf()
    }

    /// A fresh shell with an empty log.
    pub fn new() -> (s: DesktopShell)
        ensures
            s.wf(),
            s.debug_log@ == Seq::<u8>::empty(),
            s.compartment_id@ == "desktop_shell"@,
    {
        DesktopShell { debug_log: DebugLog::new(), compartment_id: "desktop_shell".to_string() }
    }

    fn log(&mut self, message: &str) -> (r: Result<(), ShellError>)
        requires
            old(self).wf(),
        ensures
            final(self).wf(),
            final(self).compartment_id@ == old(self).compartment_id@,
            (final(self).debug_log@, r) == shell_logs(old(self).debug_log@, seq![message.spec_bytes()]),
    {
        proof {
            lemma_log_entries_step(old(self).debug_log@, message.spec_bytes(), Seq::empty());
            assert(seq![message.spec_bytes()] =~= seq![message.spec_bytes()] + Seq::<Seq<u8>>::empty());
            if let Some(c) = log_entry(old(self).debug_log@, message.spec_bytes()) {
                lemma_log_entries_step(c, message.spec_bytes(), Seq::empty());
            }
        }
        match self.debug_log.log(message) {
            Ok(()) => Ok(()),
            Err(_) => Err(ShellError::DebugBufferFull),
        }
    }

    fn log_number(&mut self, num: u64) -> (r: Result<(), ShellError>)
        requires
            old(self).wf(),
        ensures
            final(self).wf(),
            final(self).compartment_id@ == old(self).compartment_id@,
            (final(self).debug_log@, r) == shell_logs(old(self).debug_log@, seq![number_text(num as nat)]),
    {
        proof {
            lemma_log_entries_step(old(self).debug_log@, number_text(num as nat), Seq::empty());
            assert(seq![number_text(num as nat)] =~= seq![number_text(num as nat)] + Seq::<Seq<u8>>::empty());
            if let Some(c) = log_entry(old(self).debug_log@, number_text(num as nat)) {
                lemma_log_entries_step(c, number_text(num as nat), Seq::empty());
            }
        }
        match self.debug_log.log_number(num) {
            Ok(()) => Ok(()),
            Err(_) => Err(ShellError::DebugBufferFull),
        }
    }

    /// Checks the boot message from the root task (`None` when receiving
    /// failed): it must start with the word 1.
    pub fn receive_boot_init(&mut self, boot_message: Option<&Message>) -> (r: Result<(), ShellError>)
        requires
            old(self).wf(),
        ensures
            final(self).wf(),
            final(self).compartment_id@ == old(self).compartment_id@,
            match boot_message {
                None => r == Err::<(), ShellError>(ShellError::BrokerCommunicationFailed) && final(self).debug_log@ == old(self).debug_log@,
                Some(m) => if word_or_zero(m@, 0) != 1 {
                    r == Err::<(), ShellError>(ShellError::InitializationFailed) && final(self).debug_log@ == old(self).debug_log@
                } else {
                    (final(self).debug_log@, r) == shell_logs(old(self).debug_log@, seq!["Received boot init message from root task".spec_bytes()])
                },
            },
    {
        let first = match boot_message {
            Some(m) => m.get_int(0).unwrap_or(0),
            None => {
                return Err(ShellError::BrokerCommunicationFailed);
            },
        };
        if first != 1 {
            return Err(ShellError::InitializationFailed);
        }
        self.log("Received boot init message from root task")
    }

    /// Initializes the shell with the boot message from the root task.
    pub fn initialize(&mut self, boot_message: Option<&Message>) -> (r: Result<(), ShellError>)
        requires
            old(self).wf(),
        ensures
            final(self).wf(),
            final(self).compartment_id@ == old(self).compartment_id@,
            ({
                let (c1, r1) = shell_logs(old(self).debug_log@, seq!["Desktop Shell initializing...".spec_bytes()]);
                if r1 is Err {
                    final(self).debug_log@ == c1 && r == r1
                } else {
                    match boot_message {
                        None => r == Err::<(), ShellError>(ShellError::BrokerCommunicationFailed) && final(self).debug_log@ == c1,
                        Some(m) => if word_or_zero(m@, 0) != 1 {
                            r == Err::<(), ShellError>(ShellError::InitializationFailed) && final(self).debug_log@ == c1
                        } else {
                            (final(self).debug_log@, r) == shell_logs(c1, seq![
                                "Received boot init message from root task".spec_bytes(),
                                "Desktop Shell initialized successfully".spec_bytes(),
                            ])
                        },
                    }
                }
            }),
    {
        let r = self.log("Desktop Shell initializing...");
        if r.is_err() {
            return r;
        }
        let ghost c1 = self.debug_log@;
        let ghost a = "Received boot init message from root task".spec_bytes();
        let ghost b = "Desktop Shell initialized successfully".spec_bytes();
        let r = self.receive_boot_init(boot_message);
        proof {
            lemma_log_entries_step(c1, a, seq![b]);
            assert(seq![a, b] =~= seq![a] + seq![b]);
            lemma_log_entries_step(c1, a, Seq::empty());
            assert(seq![a] =~= seq![a] + Seq::<Seq<u8>>::empty());
        }
        if r.is_err() {
            return r;
        }
        self.log("Desktop Shell initialized successfully")
    }

    /// Builds a broker request, logging the request type. Sending it is the
    /// caller's.
    pub fn send_broker_request(&mut self, request_type: u32, params: &[usize]) -> (r: Result<Message, ShellError>)
        requires
            old(self).wf(),
        ensures
            final(self).wf(),
            final(self).compartment_id@ == old(self).compartment_id@,
            final(self).debug_log@ == send_request_outcome(old(self).debug_log@, request_type, params@).0,
            match send_request_outcome(old(self).debug_log@, request_type, params@).1 {
                Ok(words) => r matches Ok(m) && m@ == words,
                Err(e) => r matches Err(e2) && e2 == e,
            },
    {
        let ghost log0 = self.debug_log@;
        let ghost a = "Sending request to broker".spec_bytes();
        let ghost b = number_text(request_type as nat);
        let r = self.log("Sending request to broker");
        proof {
            lemma_log_entries_step(log0, a, seq![b]);
            assert(seq![a, b] =~= seq![a] + seq![b]);
            lemma_log_entries_step(log0, a, Seq::empty());
            assert(seq![a] =~= seq![a] + Seq::<Seq<u8>>::empty());
        }
        if r.is_err() {
            return Err(ShellError::DebugBufferFull);
        }
        let r = self.log_number(request_type as u64);
        if r.is_err() {
            return Err(ShellError::DebugBufferFull);
        }
        match request_message(request_type, params) {
            Ok(m) => Ok(m),
            Err(_) => Err(ShellError::BrokerCommunicationFailed),
        }
    }

    /// Asks for the capability to launch `app_id` in `universe`: logs,
    /// validates and returns the request to send to the broker.
    pub fn request_app_launch_capability(&mut self, universe: &str, app_id: &str) -> (r: Result<Message, ShellError>)
        requires
            old(self).wf(),
        ensures
            final(self).wf(),
            final(self).compartment_id@ == old(self).compartment_id@,
            final(self).debug_log@ == app_launch_request_outcome(old(self).debug_log@, universe, app_id).0,
            match app_launch_request_outcome(old(self).debug_log@, universe, app_id).1 {
                Ok(words) => r matches Ok(m) && m@ == words,
                Err(e) => r matches Err(e2) && e2 == e,
            },
    {
        let messages: [&str; 5] = ["Requesting app launch capability", "Universe: ", universe, "App ID: ", app_id];
        let ok = self.debug_log.log_all(messages.as_slice());
        assert(messages@.map_values(|m: &str| m.spec_bytes()) =~= seq![
            "Requesting app launch capability".spec_bytes(),
            "Universe: ".spec_bytes(),
            universe.spec_bytes(),
            "App ID: ".spec_bytes(),
            app_id.spec_bytes(),
        ]);
        if !ok {
            return Err(ShellError::DebugBufferFull);
        }
        if universe.is_empty() || app_id.is_empty() {
            return Err(ShellError::InvalidAppId);
        }
        let universe_code: u64 = if str_equal(universe, "native") {
            1
        } else if str_equal(universe, "linux") {
            2
        } else if str_equal(universe, "windows") {
            3
        } else if str_equal(universe, "android") {
            4
        } else {
            return Err(ShellError::InvalidUniverse);
        };
        let app_id_code: u64 = if str_equal(app_id, "hello_world") {
            1
        } else if str_equal(app_id, "calculator") {
            2
        } else if str_equal(app_id, "browser") {
            3
        } else {
            return Err(ShellError::InvalidAppId);
        };
        let params: [usize; 3] = [universe_code as usize, app_id_code as usize, 1];
        assert(params@ =~= seq![universe_code as usize, app_id_code as usize, 1usize]);
        self.send_broker_request(1, params.as_slice())
    }

    /// Reads the broker's answer to an app-launch request and records the
    /// granted token.
    pub fn complete_app_launch_request(
        &mut self,
        universe: &str,
        app_id: &str,
        exchange: &BrokerExchange,
    ) -> (r: Result<CapToken, ShellError>)
        requires
            old(self).wf(),
        ensures
            final(self).wf(),
            final(self).compartment_id@ == old(self).compartment_id@,
            final(self).debug_log@ == app_launch_response_outcome(
                old(self).debug_log@, universe@, app_id@, old(self).compartment_id@, *exchange).0,
            match app_launch_response_outcome(old(self).debug_log@, universe@, app_id@, old(self).compartment_id@, *exchange).1 {
                Ok(t) => r matches Ok(token) && token@ == t,
                Err(e) => r matches Err(e2) && e2 == e,
            },
    {
        match exchange {
            BrokerExchange::SendFailed => {
                return Err(ShellError::BrokerCommunicationFailed);
            },
            _ => {},
        }
        let r = self.log("Request sent, waiting for response");
        if r.is_err() {
            return Err(ShellError::DebugBufferFull);
        }
        let response = match exchange {
            BrokerExchange::Reply(m) => m,
            _ => {
                return Err(ShellError::BrokerCommunicationFailed);
            },
        };
        let r = self.log("Received response from broker");
        if r.is_err() {
            return Err(ShellError::DebugBufferFull);
        }
        let success = response.get_int(0).unwrap_or(0);
        if success != 1 {
            return Err(ShellError::CapabilityRequestFailed);
        }
        let token_id = response.get_int(1).unwrap_or(0);
        let mut description = String::new();
        push_str(&mut description, "App launch capability for ");
        push_str(&mut description, app_id);
        push_str(&mut description, " in ");
        push_str(&mut description, universe);
        let token = CapToken {
            id: token_id,
            description,
            compartment: self.compartment_id.clone(),
            delegatable: false,
            parent_id: 0,
        };
        let r = self.log("Successfully created app launch capability");
        if r.is_err() {
            return Err(ShellError::DebugBufferFull);
        }
        Ok(token)
    }

    /// Starts launching the "hello_world" app: logs and returns the request
    /// for its launch capability.
    pub fn launch_hello_world_app(&mut self) -> (r: Result<Message, ShellError>)
        requires
            old(self).wf(),
        ensures
            final(self).wf(),
            final(self).compartment_id@ == old(self).compartment_id@,
            ({
                let (c1, r1) = shell_logs(old(self).debug_log@, seq!["Requesting app launch capability for 'hello_world'".spec_bytes()]);
                if r1 is Err {
                    final(self).debug_log@ == c1 && r == Err::<Message, ShellError>(ShellError::DebugBufferFull)
                } else {
                    &&& final(self).debug_log@ == app_launch_request_outcome(c1, "native", "hello_world").0
                    &&& match app_launch_request_outcome(c1, "native", "hello_world").1 {
                        Ok(words) => r matches Ok(m) && m@ == words,
                        Err(e) => r matches Err(e2) && e2 == e,
                    }
                }
            }),
    {
        let r = self.log("Requesting app launch capability for 'hello_world'");
        if r.is_err() {
            return Err(ShellError::DebugBufferFull);
        }
        self.request_app_launch_capability("native", "hello_world")
    }

    /// Finishes launching "hello_world" with the broker's answer; gives the
    /// granted token's identifier.
    pub fn finish_hello_world_launch(&mut self, exchange: &BrokerExchange) -> (r: Result<u64, ShellError>)
        requires
            old(self).wf(),
        ensures
            final(self).wf(),
            final(self).compartment_id@ == old(self).compartment_id@,
            ({
                let (c1, r1) = app_launch_response_outcome(
                    old(self).debug_log@, "native"@, "hello_world"@, old(self).compartment_id@, *exchange);
                match r1 {
                    Err(e) => final(self).debug_log@ == c1 && r == Err::<u64, ShellError>(e),
                    Ok(t) => {
                        let (c2, r2) = shell_logs(c1, seq![
                            "Received app launch capability token".spec_bytes(),
                            "Launching app via universe manager (placeholder)".spec_bytes(),
                        ]);
                        final(self).debug_log@ == c2 && (r2 is Ok ==> r == Ok::<u64, ShellError>(t.id))
                            && (r2 is Err ==> r == Err::<u64, ShellError>(ShellError::DebugBufferFull))
                    },
                }
            }),
    {
        let token = match self.complete_app_launch_request("native", "hello_world", exchange) {
            Ok(token) => token,
            Err(e) => {
                return Err(e);
            },
        };
        let messages: [&str; 2] = ["Received app launch capability token", "Launching app via universe manager (placeholder)"];
        let ok = self.debug_log.log_all(messages.as_slice());
        assert(messages@.map_values(|m: &str| m.spec_bytes()) =~= seq![
            "Received app launch capability token".spec_bytes(),
            "Launching app via universe manager (placeholder)".spec_bytes(),
        ]);
        if !ok {
            return Err(ShellError::DebugBufferFull);
        }
        Ok(token.id)
    }

    /// Logs how a launch went: the token identifier, or the error's code.
    pub fn report_launch_outcome(&mut self, outcome: Result<u64, ShellError>) -> (r: Result<(), ShellError>)
        requires
            old(self).wf(),
        ensures
            final(self).wf(),
            final(self).compartment_id@ == old(self).compartment_id@,
            (final(self).debug_log@, r) == match outcome {
                Ok(id) => shell_logs(old(self).debug_log@, seq![
                    "Successfully launched app with token ID: ".spec_bytes(),
                    number_text(id as nat),
                ]),
                Err(e) => shell_logs(old(self).debug_log@, seq![
                    "Failed to launch app: ".spec_bytes(),
                    number_text(shell_error_code(e) as nat),
                ]),
            },
    {
        let ghost log0 = self.debug_log@;
        let (heading, number) = match outcome {
            Ok(id) => ("Successfully launched app with token ID: ", id),
            Err(e) => ("Failed to launch app: ", e.code()),
        };
        let r = self.log(heading);
        proof {
            lemma_log_entries_step(log0, heading.spec_bytes(), seq![number_text(number as nat)]);
            assert(seq![heading.spec_bytes(), number_text(number as nat)] =~= seq![heading.spec_bytes()] + seq![number_text(number as nat)]);
            lemma_log_entries_step(log0, heading.spec_bytes(), Seq::empty());
            assert(seq![heading.spec_bytes()] =~= seq![heading.spec_bytes()] + Seq::<Seq<u8>>::empty());
        }
        if r.is_err() {
            return r;
        }
        self.log_number(number)
    }

    /// Logs a voice command passed on by Aura and how the shell reads it.
    pub fn on_user_voice_command(&mut self, text: &str) -> (r: Result<(), ShellError>)
        requires
            old(self).wf(),
        ensures
            final(self).wf(),
            final(self).compartment_id@ == old(self).compartment_id@,
            (final(self).debug_log@, r) == shell_logs(old(self).debug_log@, seq![
                "Aura voice command received: ".spec_bytes(),
                text.spec_bytes(),
                voice_command_note(text.spec_bytes()),
            ]),
    {
        let note = if str_contains(text, "hello") {
            "Detected greeting command"
        } else if str_contains(text, "launch") {
            "Detected launch command"
        } else {
            "Unknown command"
        };
        let messages: [&str; 3] = ["Aura voice command received: ", text, note];
        let ok = self.debug_log.log_all(messages.as_slice());
        assert(messages@.map_values(|m: &str| m.spec_bytes()) =~= seq![
            "Aura voice command received: ".spec_bytes(),
            text.spec_bytes(),
            voice_command_note(text.spec_bytes()),
        ]);
        if ok {
            Ok(())
        } else {
            Err(ShellError::DebugBufferFull)
        }
    }
}

} // verus!
