use loop_os::aura::AuraOrchestrator;
use loop_os::broker::{
    create_temporary_capability, verify_capability_held, BrokerError, CapabilityBroker, CapabilityDatabase,
    MAX_CAPABILITIES,
};
use loop_os::message::BrokerExchange;
use loop_os::shell::DesktopShell;
use loop_os::intent::RequiredCapability;
use loop_os::message::Message;
use loop_os::tokens::{CapToken, OrchestrateResource, Resource, ResourceSpec};

fn token(id: u64, compartment: &str) -> CapToken {
    CapToken {
        id,
        description: format!("token {}", id),
        compartment: compartment.to_string(),
        delegatable: true,
        parent_id: 0,
    }
}

fn resource() -> ResourceSpec {
    ResourceSpec { resource: Resource::Orchestrate(OrchestrateResource { can_chain: false }) }
}

fn msg(words: Vec<u64>) -> Message {
    Message::from_words(words).unwrap()
}

#[test]
fn insert_answers_next_id_without_advancing() {
    let mut db = CapabilityDatabase::new();
    assert_eq!(db.insert(token(7, "a"), resource(), "a".to_string()), Ok(1));
    assert_eq!(db.insert(token(8, "a"), resource(), "a".to_string()), Ok(1));
    assert_eq!(db.next_id(), 1);
    assert_eq!(db.next_id(), 2);
    assert_eq!(db.insert(token(9, "a"), resource(), "a".to_string()), Ok(3));
    assert_eq!(db.count(), 3);
}

#[test]
fn find_and_remove() {
    let mut db = CapabilityDatabase::new();
    db.insert(token(7, "a"), resource(), "a".to_string()).unwrap();
    db.insert(token(8, "b"), resource(), "b".to_string()).unwrap();
    let e = db.find(8).unwrap();
    assert_eq!(e.token.id, 8);
    assert_eq!(e.compartment, "b");
    assert!(!e.is_delegated);
    assert_eq!(e.parent_id, None);
    assert!(db.find(9).is_none());
    let removed = db.remove(7).unwrap();
    assert_eq!(removed.token.id, 7);
    assert!(db.find(7).is_none());
    assert_eq!(db.remove(7).err(), Some(BrokerError::TokenNotFound));
    assert_eq!(db.count(), 1);
}

#[test]
fn insert_then_remove_restores_the_count() {
    let mut db = CapabilityDatabase::new();
    db.insert(token(1, "a"), resource(), "a".to_string()).unwrap();
    let before = db.count();
    db.insert(token(5, "a"), resource(), "a".to_string()).unwrap();
    assert_eq!(db.count(), before + 1);
    db.remove(5).unwrap();
    assert_eq!(db.count(), before);
    assert!(db.find(5).is_none());
}

#[test]
fn removed_slot_is_reused() {
    let mut db = CapabilityDatabase::new();
    db.insert(token(1, "a"), resource(), "a".to_string()).unwrap();
    db.insert(token(2, "a"), resource(), "a".to_string()).unwrap();
    db.remove(1).unwrap();
    db.insert(token(3, "a"), resource(), "a".to_string()).unwrap();
    // token 3 took the first slot, before token 2
    let listed = db.list_by_compartment("a");
    let mut it = listed.iter();
    assert_eq!(it.next().unwrap().id, 3);
    assert_eq!(it.next().unwrap().id, 2);
    assert!(it.next().is_none());
}

#[test]
fn find_mut_changes_the_stored_entry() {
    let mut db = CapabilityDatabase::new();
    db.insert(token(4, "a"), resource(), "a".to_string()).unwrap();
    {
        let e = db.find_mut(4).unwrap();
        e.is_delegated = true;
        e.parent_id = Some(1);
    }
    let e = db.find(4).unwrap();
    assert!(e.is_delegated);
    assert_eq!(e.parent_id, Some(1));
    assert!(db.find_mut(5).is_none());
}

#[test]
fn full_database_refuses_insert() {
    let mut db = CapabilityDatabase::new();
    for i in 0..MAX_CAPABILITIES {
        assert!(db.insert(token(i as u64, "a"), resource(), "a".to_string()).is_ok());
    }
    assert_eq!(db.insert(token(5000, "a"), resource(), "a".to_string()), Err(BrokerError::DatabaseError));
    assert_eq!(db.count(), MAX_CAPABILITIES);
}

#[test]
fn list_by_compartment_lists_every_token() {
    let mut db = CapabilityDatabase::new();
    for i in 0..70 {
        db.insert(token(i, "many"), resource(), "many".to_string()).unwrap();
    }
    db.insert(token(100, "other"), resource(), "other".to_string()).unwrap();
    let ids: Vec<u64> = db.list_by_compartment("many").iter().map(|t| t.id).collect();
    assert_eq!(ids, (0..70).collect::<Vec<u64>>());
    assert_eq!(db.list_by_compartment("other").len(), 1);
    assert_eq!(db.list_by_compartment("none").len(), 0);
}

#[test]
fn error_codes() {
    assert_eq!(BrokerError::InvalidRequest.code(), 0);
    assert_eq!(BrokerError::TokenNotFound.code(), 2);
    assert_eq!(BrokerError::DatabaseError.code(), 5);
    assert_eq!(BrokerError::IPCError.code(), 6);
}

#[test]
fn broker_initialization() {
    let mut broker = CapabilityBroker::new();
    assert_eq!(broker.broker_compartment, "cap_broker");
    assert_eq!(broker.initialize(None), Err(BrokerError::IPCError));
    assert_eq!(broker.initialize(Some(&msg(vec![0]))), Err(BrokerError::InvalidRequest));
    assert_eq!(broker.database.count(), 0);
    assert_eq!(broker.initialize(Some(&msg(vec![1]))), Ok(()));
    let e = broker.database.find(1).unwrap();
    assert_eq!(e.token.description, "Initial orchestrate capability for Aura");
    assert_eq!(e.token.compartment, "cap_broker");
    assert!(e.token.delegatable);
    assert_eq!(e.compartment, "cap_broker");
    match &e.resource_spec.resource {
        Resource::Orchestrate(o) => assert!(o.can_chain),
        _ => panic!("wrong resource"),
    }
}

#[test]
fn create_request_stores_token_for_compartment() {
    let mut broker = CapabilityBroker::new();
    let response = broker.handle_request(&msg(vec![1, 7]));
    assert_eq!(response.to_words(), vec![1, 1]);
    let e = broker.database.find(1).unwrap();
    assert_eq!(e.token.description, "Capability for compartment 7");
    assert_eq!(e.token.compartment, "compartment_7");
    assert_eq!(e.compartment, "compartment_7");
    match &e.resource_spec.resource {
        Resource::Filesystem(f) => {
            assert_eq!(f.path, "/tmp/example");
            assert!(f.read && !f.write && !f.execute && f.delegatable);
        },
        _ => panic!("wrong resource"),
    }
    let second = broker.handle_request(&msg(vec![1, 4294967303]));
    assert_eq!(second.to_words(), vec![1, 2]);
    assert_eq!(broker.database.find(2).unwrap().compartment, "compartment_7");
}

#[test]
fn create_request_without_compartment_uses_zero() {
    let mut broker = CapabilityBroker::new();
    let response = broker.handle_request(&msg(vec![1]));
    assert_eq!(response.to_words(), vec![1, 1]);
    assert_eq!(broker.database.find(1).unwrap().compartment, "compartment_0");
}

#[test]
fn inspect_and_list_requests() {
    let mut broker = CapabilityBroker::new();
    broker.initialize(Some(&msg(vec![1]))).unwrap();
    broker.handle_request(&msg(vec![1, 3]));
    broker.handle_request(&msg(vec![1, 3]));
    broker.handle_request(&msg(vec![1, 4]));
    assert_eq!(broker.handle_request(&msg(vec![4, 3])).to_words(), vec![1, 2]);
    assert_eq!(broker.handle_request(&msg(vec![4, 4])).to_words(), vec![1, 1]);
    assert_eq!(broker.handle_request(&msg(vec![4, 9])).to_words(), vec![1, 0]);
    assert_eq!(broker.handle_request(&msg(vec![5])).to_words(), vec![1, 4]);
}

#[test]
fn revoke_request() {
    let mut broker = CapabilityBroker::new();
    broker.handle_request(&msg(vec![1, 3]));
    assert_eq!(broker.handle_request(&msg(vec![2, 1])).to_words(), vec![1, 1]);
    assert_eq!(broker.handle_request(&msg(vec![5])).to_words(), vec![1, 0]);
    assert_eq!(broker.handle_request(&msg(vec![2, 1])).to_words(), vec![0, 2]);
}

#[test]
fn delegate_and_unknown_requests() {
    let mut broker = CapabilityBroker::new();
    assert_eq!(broker.handle_request(&msg(vec![3, 1])).to_words(), vec![0]);
    assert_eq!(broker.handle_request(&msg(vec![9])).to_words(), vec![0, 0]);
    assert_eq!(broker.handle_request(&Message::new()).to_words(), vec![0, 0]);
}

#[test]
fn create_response_message_for_errors() {
    let broker = CapabilityBroker::new();
    let r = broker.create_response_message(Err(BrokerError::DatabaseError)).unwrap();
    assert_eq!(r.to_words(), vec![0, 5]);
    let ok = broker.create_response_message(Ok(msg(vec![1, 2, 3]))).unwrap();
    assert_eq!(ok.to_words(), vec![1, 2, 3]);
}

#[test]
fn full_database_answers_database_error() {
    let mut broker = CapabilityBroker::new();
    for _ in 0..MAX_CAPABILITIES {
        assert_eq!(broker.handle_request(&msg(vec![1, 1])).get_int(0), Some(1));
    }
    assert_eq!(broker.handle_request(&msg(vec![1, 1])).to_words(), vec![0, 5]);
}

#[test]
fn stub_helpers() {
    let required = vec![RequiredCapability::new()];
    assert_eq!(verify_capability_held("anyone", &required), Ok(true));
    let t = create_temporary_capability(resource(), "shell", 500).unwrap();
    assert_eq!(t.id, 0);
    assert_eq!(t.description, "Temporary capability");
    assert_eq!(t.compartment, "shell");
    assert!(!t.delegatable);
    assert_eq!(t.parent_id, 0);
    let copy = t.copy();
    assert_eq!(copy.compartment, "shell");
}

#[test]
fn inspect_counts_more_than_sixty_four_tokens() {
    let mut broker = CapabilityBroker::new();
    for _ in 0..70 {
        broker.handle_request(&msg(vec![1, 6]));
    }
    assert_eq!(broker.handle_request(&msg(vec![4, 6])).to_words(), vec![1, 70]);
}

#[test]
fn clients_accept_create_replies_after_the_first() {
    let mut broker = CapabilityBroker::new();
    let mut shell = DesktopShell::new();
    let request = shell.launch_hello_world_app().unwrap();
    let reply = broker.handle_request(&request);
    assert_eq!(reply.to_words(), vec![1, 1]);
    assert_eq!(shell.finish_hello_world_launch(&BrokerExchange::Reply(reply)), Ok(1));
    let mut aura = AuraOrchestrator::new();
    let request = aura.handle_voice_command("say hello to Mark").unwrap();
    let reply = broker.handle_request(&request);
    assert_eq!(reply.to_words(), vec![1, 2]);
    assert_eq!(aura.finish_voice_command(&BrokerExchange::Reply(reply)), Ok(()));
}
