use loop_os::aura::{intent_for_command, search_terms, AuraError, AuraOrchestrator, ORCHESTRATE_TOKEN_ID};
use loop_os::intent::{str_to_fixed_array, IntentType, LILIntent, ParamKey, ParamValue, RequiredCapability};
use loop_os::message::{BrokerExchange, Message};

fn text(v: &ParamValue) -> (Vec<u8>, usize) {
    match v {
        ParamValue::String(data, len) => (data.to_vec(), *len),
        _ => panic!("not text"),
    }
}

fn cap(c: &RequiredCapability) -> (String, String) {
    (
        String::from_utf8(c.type_str[..c.type_len].to_vec()).unwrap(),
        String::from_utf8(c.identifier[..c.identifier_len].to_vec()).unwrap(),
    )
}

fn reply(words: Vec<u64>) -> BrokerExchange {
    BrokerExchange::Reply(Message::from_words(words).unwrap())
}

#[test]
fn intent_codes_and_names() {
    assert_eq!(IntentType::Open.code(), 0);
    assert_eq!(IntentType::Compose.code(), 1);
    assert_eq!(IntentType::Uninstall.code(), 11);
    assert_eq!(IntentType::Configure.name(), "configure");
    assert_eq!(IntentType::Query.name(), "query");
}

#[test]
fn fixed_array_is_zero_filled_and_cut() {
    let a = str_to_fixed_array("Mark");
    assert_eq!(&a[..4], b"Mark");
    assert!(a[4..].iter().all(|b| *b == 0));
    let long = "m".repeat(200);
    let b = str_to_fixed_array(&long);
    assert!(b.iter().all(|x| *x == b'm'));
}

#[test]
fn add_param_stops_at_sixteen() {
    let mut intent = LILIntent::new();
    for i in 0..16 {
        assert_eq!(intent.add_param(ParamKey::Value, ParamValue::Integer(i)), Ok(()));
    }
    assert_eq!(intent.add_param(ParamKey::Value, ParamValue::Boolean(true)), Err(AuraError::InvalidIntent));
    assert_eq!(intent.params.count(), 16);
}

#[test]
fn add_required_capability_cuts_and_stops_at_eight() {
    let mut intent = LILIntent::new();
    let long_type = "t".repeat(40);
    let long_id = "i".repeat(150);
    assert_eq!(intent.add_required_capability(&long_type, &long_id), Ok(()));
    let (t, i) = cap(&intent.required_capabilities[0]);
    assert_eq!(t, "t".repeat(32));
    assert_eq!(i, "i".repeat(128));
    for _ in 1..8 {
        assert_eq!(intent.add_required_capability("fs:read", "/"), Ok(()));
    }
    assert_eq!(intent.add_required_capability("fs:read", "/"), Err(AuraError::InvalidIntent));
    assert_eq!(intent.required_capabilities.len(), 8);
}

#[test]
fn set_context_accumulates_echo_length() {
    let mut intent = LILIntent::new();
    assert_eq!(intent.set_context("session_123", "hello"), Ok(()));
    assert_eq!(&intent.context.session_id[..11], b"session_123");
    assert_eq!(intent.context.session_id[11], 0);
    assert_eq!(&intent.context.echo[..5], b"hello");
    assert_eq!(intent.context.echo_len, 5);
    assert_eq!(intent.set_context("s", "hi"), Ok(()));
    assert_eq!(&intent.context.session_id[..11], b"session_123");
    assert_eq!(&intent.context.echo[..5], b"hillo");
    assert_eq!(intent.context.echo_len, 7);
}

#[test]
fn greeting_command_builds_compose_intent() {
    let intent = intent_for_command("say hello to Mark");
    assert_eq!(intent.intent, IntentType::Compose);
    assert!(!intent.confirmation_required);
    assert_eq!(intent.params.keys, vec![ParamKey::To, ParamKey::Subject, ParamKey::Body]);
    let (to, to_len) = text(&intent.params.values[0]);
    assert_eq!(&to[..4], b"Mark");
    assert_eq!(to_len, 4);
    let (subject, subject_len) = text(&intent.params.values[1]);
    assert_eq!(&subject[..5], b"Hello");
    assert_eq!(subject_len, 5);
    let (body, body_len) = text(&intent.params.values[2]);
    assert_eq!(&body[..30], b"Hello Mark! How are you today?");
    assert_eq!(body_len, 30);
    assert_eq!(cap(&intent.required_capabilities[0]), ("contacts:read".to_string(), "all".to_string()));
    assert_eq!(cap(&intent.required_capabilities[1]), ("net:outbound".to_string(), "smtp.example.com".to_string()));
    assert_eq!(&intent.context.echo[..17], b"say hello to Mark");
    assert_eq!(intent.context.echo_len, 17);
}

#[test]
fn search_command_builds_search_intent() {
    assert_eq!(search_terms("please search   rust book  "), "rust book");
    let intent = intent_for_command("please search   rust book  ");
    assert_eq!(intent.intent, IntentType::Search);
    assert_eq!(intent.params.keys, vec![ParamKey::Query]);
    let (q, q_len) = text(&intent.params.values[0]);
    assert_eq!(&q[..9], b"rust book");
    assert_eq!(q[9], 0);
    assert_eq!(q_len, 9);
    assert_eq!(intent.required_capabilities.len(), 1);
    assert_eq!(cap(&intent.required_capabilities[0]), ("fs:read".to_string(), "/home/user/Documents".to_string()));
}

#[test]
fn search_terms_without_search_is_unknown() {
    assert_eq!(search_terms("find my files"), "unknown");
    assert_eq!(search_terms("search"), "");
}

#[test]
fn hello_without_mark_is_not_a_greeting() {
    let intent = intent_for_command("hello search cats");
    assert_eq!(intent.intent, IntentType::Search);
    let (q, q_len) = text(&intent.params.values[0]);
    assert_eq!(&q[..4], b"cats");
    assert_eq!(q_len, 4);
}

#[test]
fn other_command_builds_query_intent() {
    let intent = intent_for_command("what time is it");
    assert_eq!(intent.intent, IntentType::Query);
    let (q, q_len) = text(&intent.params.values[0]);
    assert_eq!(&q[..15], b"what time is it");
    assert_eq!(q_len, 15);
    assert_eq!(cap(&intent.required_capabilities[0]), ("net:outbound".to_string(), "api.search.example.com".to_string()));
}

#[test]
fn long_query_keeps_full_length() {
    let command = "q".repeat(200);
    let intent = intent_for_command(&command);
    let (q, q_len) = text(&intent.params.values[0]);
    assert_eq!(q.len(), 128);
    assert_eq!(q_len, 200);
    assert_eq!(intent.context.echo_len, 200);
}

#[test]
fn intent_json_for_greeting() {
    let aura = AuraOrchestrator::new();
    let intent = intent_for_command("say hello to Mark");
    let json = aura.build_intent_json(&intent).unwrap();
    let expected = br#"{"intent":"compose","required_capabilities":[{"type":"contacts:read","identifier":"all"}]}"#;
    assert_eq!(&json[..expected.len()], &expected[..]);
    assert!(json[expected.len()..].iter().all(|b| *b == 0));
}

#[test]
fn intent_json_without_capability() {
    let aura = AuraOrchestrator::new();
    let intent = LILIntent::new();
    let json = aura.build_intent_json(&intent).unwrap();
    let expected = br#"{"intent":"query","required_capabilities":[]}"#;
    assert_eq!(&json[..expected.len()], &expected[..]);
    assert_eq!(json[expected.len()], 0);
}

#[test]
fn new_orchestrator_holds_orchestrate_token() {
    let aura = AuraOrchestrator::new();
    assert_eq!(aura.orchestrate_token_id, ORCHESTRATE_TOKEN_ID);
    assert_eq!(aura.compartment_id, "aura_orchestrator");
    assert_eq!(aura.debug_log.position(), 0);
}

#[test]
fn initialize_accepts_boot_message_one() {
    let mut aura = AuraOrchestrator::new();
    let boot = Message::from_words(vec![1]).unwrap();
    assert_eq!(aura.initialize(Some(&boot)), Ok(()));
    assert_eq!(
        String::from_utf8(aura.debug_log.contents()).unwrap(),
        "Aura Orchestrator initializing...\nReceived boot init message from root task\n\
         Aura Orchestrator initialized successfully\nHolding orchestrate token ID: \n"
    );
}

#[test]
fn initialize_rejects_other_boot_messages() {
    let mut aura = AuraOrchestrator::new();
    let boot = Message::from_words(vec![2]).unwrap();
    assert_eq!(aura.initialize(Some(&boot)), Err(AuraError::BrokerCommunicationFailed));
    assert_eq!(String::from_utf8(aura.debug_log.contents()).unwrap(), "Aura Orchestrator initializing...\n");
    let mut aura = AuraOrchestrator::new();
    assert_eq!(aura.initialize(None), Err(AuraError::BrokerCommunicationFailed));
    let mut aura = AuraOrchestrator::new();
    let empty = Message::new();
    assert_eq!(aura.receive_boot_init(Some(&empty)), Err(AuraError::BrokerCommunicationFailed));
}

#[test]
fn voice_command_produces_create_request() {
    let mut aura = AuraOrchestrator::new();
    let request = aura.handle_voice_command("say hello to Mark").unwrap();
    assert_eq!(request.to_words(), vec![1, 1, 1, 0]);
    assert_eq!(
        String::from_utf8(aura.debug_log.contents()).unwrap(),
        "Processing voice command: \nsay hello to Mark\nBuilding LIL intent from command\n\
         Built compose intent for greeting\nExecuting LIL intent\nSending intent to broker\n"
    );
}

#[test]
fn execute_intent_requires_a_capability() {
    let mut aura = AuraOrchestrator::new();
    let intent = LILIntent::new();
    assert_eq!(aura.execute_intent(&intent).err(), Some(AuraError::InvalidIntent));
}

#[test]
fn execute_intent_logs_confirmation() {
    let mut aura = AuraOrchestrator::new();
    let mut intent = intent_for_command("what now");
    intent.confirmation_required = true;
    let request = aura.execute_intent(&intent).unwrap();
    assert_eq!(request.to_words(), vec![1, 1, 8, 0]);
    assert_eq!(
        String::from_utf8(aura.debug_log.contents()).unwrap(),
        "Executing LIL intent\nUser confirmation required for this intent\n\
         User confirmation received (assumed)\nSending intent to broker\n"
    );
}

#[test]
fn broker_answer_issues_token() {
    let mut aura = AuraOrchestrator::new();
    let token = aura.accept_intent_response(&reply(vec![1, 42])).unwrap();
    assert_eq!(token.id, 42);
    assert_eq!(token.description, "Intent execution token");
    assert_eq!(token.compartment, "aura_orchestrator");
    assert!(!token.delegatable);
    assert_eq!(token.parent_id, 1);
}

#[test]
fn broker_answer_failures() {
    let mut aura = AuraOrchestrator::new();
    assert_eq!(aura.accept_intent_response(&reply(vec![0, 42])).err(), Some(AuraError::BrokerCommunicationFailed));
    assert_eq!(aura.accept_intent_response(&reply(vec![])).err(), Some(AuraError::BrokerCommunicationFailed));
    assert_eq!(aura.accept_intent_response(&BrokerExchange::SendFailed).err(), Some(AuraError::BrokerCommunicationFailed));
    assert_eq!(aura.accept_intent_response(&BrokerExchange::ReceiveFailed).err(), Some(AuraError::BrokerCommunicationFailed));
    assert_eq!(aura.debug_log.position(), 0);
}

#[test]
fn finish_voice_command_logs_success() {
    let mut aura = AuraOrchestrator::new();
    assert_eq!(aura.finish_voice_command(&reply(vec![1, 5])), Ok(()));
    assert_eq!(
        String::from_utf8(aura.debug_log.contents()).unwrap(),
        "Intent execution successful\nIntent executed successfully with token ID: \n"
    );
}

#[test]
fn send_broker_request_builds_message() {
    let aura = AuraOrchestrator::new();
    let m = aura.send_broker_request(3, &[4, 5]).unwrap();
    assert_eq!(m.to_words(), vec![3, 4, 5]);
    let too_many = vec![0usize; 200];
    assert_eq!(aura.send_broker_request(1, &too_many).err(), Some(AuraError::BrokerCommunicationFailed));
}

#[test]
fn build_intent_fails_when_log_is_full() {
    let mut aura = AuraOrchestrator::new();
    assert_eq!(aura.debug_log.log(&"f".repeat(4060)), Ok(()));
    let before = aura.debug_log.contents();
    assert_eq!(aura.build_intent("say hello to Mark").err(), Some(AuraError::DebugBufferFull));
    let mut expected = before.clone();
    expected.extend_from_slice(b"Building LIL intent from command\n");
    assert_eq!(aura.debug_log.contents(), expected);
    assert_eq!(aura.build_intent("x").err(), Some(AuraError::DebugBufferFull));
    assert_eq!(aura.debug_log.contents(), expected);
}

#[test]
fn declared_capability_is_zero_filled() {
    let mut intent = LILIntent::new();
    assert_eq!(intent.add_required_capability("fs:read", "/tmp"), Ok(()));
    let c = &intent.required_capabilities[0];
    assert_eq!(&c.type_str[..7], b"fs:read");
    assert!(c.type_str[7..].iter().all(|b| *b == 0));
    assert_eq!(&c.identifier[..4], b"/tmp");
    assert!(c.identifier[4..].iter().all(|b| *b == 0));
}
