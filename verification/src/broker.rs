//! The capability broker: the database of capability tokens and the
//! handling of requests from other compartments. Receiving requests and
//! sending responses is left to the caller.

use vstd::prelude::*;
use crate::intent::RequiredCapability;
use crate::message::{Message, word_or_zero};
use crate::text::{ascii_chars, decimal, push_decimal, push_str, str_equal};
use crate::tokens::{CapToken, CapTokenView, FilesystemResource, OrchestrateResource, Resource, ResourceSpec, ResourceView};

verus! {

/// Errors of broker operations.
#[derive(Debug, Clone, Copy, PartialEq, Eq, Structural)]
pub enum BrokerError {
    InvalidRequest,
    InsufficientCapabilities,
    TokenNotFound,
    InvalidCompartment,
    NotImplemented,
    DatabaseError,
    IPCError,
}

/// Wire code of each broker error.
pub open spec fn error_code(e: BrokerError) -> u64 {
    match e {
        BrokerError::InvalidRequest => 0,
        BrokerError::InsufficientCapabilities => 1,
        BrokerError::TokenNotFound => 2,
        BrokerError::InvalidCompartment => 3,
        BrokerError::NotImplemented => 4,
        BrokerError::DatabaseError => 5,
        BrokerError::IPCError => 6,
    }
}

impl BrokerError {
    /// The error's wire code.
    pub fn code(&self) -> (c: u64)
        ensures
            c == error_code(*self),
    {
        match self {
            BrokerError::InvalidRequest => 0,
            BrokerError::InsufficientCapabilities => 1,
            BrokerError::TokenNotFound => 2,
            BrokerError::InvalidCompartment => 3,
            BrokerError::NotImplemented => 4,
            BrokerError::DatabaseError => 5,
            BrokerError::IPCError => 6,
        }
    }
}

/// Number of slots in the capability database.
pub const MAX_CAPABILITIES: usize = 1024;

// ---------------------------------------------------------------------------
// Capability database
// ---------------------------------------------------------------------------

/// A token in the database, with what it grants and who owns it.
pub struct CapabilityEntry {
    pub token: CapToken,
    pub resource_spec: ResourceSpec,
    pub compartment: String,
    pub is_delegated: bool,
    pub parent_id: Option<u64>,
}

/// The mathematical value of an entry.
pub struct EntryView {
    pub token: CapTokenView,
    pub resource: ResourceView,
    pub compartment: Seq<char>,
    pub is_delegated: bool,
    pub parent_id: Option<u64>,
}

impl View for CapabilityEntry {
    type V = EntryView;

    open spec fn view(&self) -> EntryView {
        EntryView {
            token: self.token@,
            resource: self.resource_spec@,
            compartment: self.compartment@,
            is_delegated: self.is_delegated,
            parent_id: self.parent_id,
        }
    }
}

/// The value of a slot.
pub open spec fn slot_view(slot: Option<CapabilityEntry>) -> Option<EntryView> {
    match slot {
        Some(e) => Some(e@),
        None => None,
    }
}

/// The mathematical value of the database: its slots and the next token
/// identifier.
pub struct DatabaseView {
    pub slots: Seq<Option<EntryView>>,
    pub next_id: u64,
}

/// The first slot, from `i` on, that satisfies `p`.
pub open spec fn first_slot_from(slots: Seq<Option<EntryView>>, p: spec_fn(Option<EntryView>) -> bool, i: int) -> Option<int>
    decreases slots.len() - i,
{
    if i < 0 || i >= slots.len() {
        None
    } else if p(slots[i]) {
        Some(i)
    } else {
        first_slot_from(slots, p, i + 1)
    }
}

/// A slot holds the token with identifier `id`.
pub open spec fn holds_id(id: u64) -> spec_fn(Option<EntryView>) -> bool {
    |slot: Option<EntryView>| slot matches Some(e) && e.token.id == id
}

/// A slot is free.
pub open spec fn is_free() -> spec_fn(Option<EntryView>) -> bool {
    |slot: Option<EntryView>| slot is None
}

/// The first slot holding a token with identifier `id`.
pub open spec fn find_slot(slots: Seq<Option<EntryView>>, id: u64) -> Option<int> {
    first_slot_from(slots, holds_id(id), 0)
}

/// The first free slot.
pub open spec fn free_slot(slots: Seq<Option<EntryView>>) -> Option<int> {
    first_slot_from(slots, is_free(), 0)
}

/// What skipping slots that fail `p` does to the search.
pub proof fn lemma_first_slot_scan(slots: Seq<Option<EntryView>>, p: spec_fn(Option<EntryView>) -> bool, i: int, k: int)
    requires
        0 <= i <= k <= slots.len(),
        forall|j: int| i <= j < k ==> !p(#[trigger] slots[j]),
    ensures
        first_slot_from(slots, p, i) == first_slot_from(slots, p, k),
    decreases k - i,
{
    if i < k {
        lemma_first_slot_scan(slots, p, i + 1, k);
    }
}

/// The first slot satisfying `p` does, and none before it does.
pub proof fn lemma_first_slot(slots: Seq<Option<EntryView>>, p: spec_fn(Option<EntryView>) -> bool, i: int)
    requires
        0 <= i,
    ensures
        first_slot_from(slots, p, i) matches Some(k) ==> i <= k < slots.len() && p(slots[k])
            && forall|j: int| i <= j < k ==> !p(#[trigger] slots[j]),
        first_slot_from(slots, p, i) is None ==> forall|j: int| i <= j < slots.len() ==> !p(#[trigger] slots[j]),
    decreases slots.len() - i,
{
    if i < slots.len() && !p(slots[i]) {
        lemma_first_slot(slots, p, i + 1);
    }
}

/// The tokens of entries owned by `compartment` among the first `n` slots,
/// in slot order.
pub open spec fn compartment_tokens(slots: Seq<Option<EntryView>>, compartment: Seq<char>, n: int) -> Seq<CapTokenView>
    decreases n,
{
    if n <= 0 {
        Seq::empty()
    } else {
        let before = compartment_tokens(slots, compartment, n - 1);
        match slots[n - 1] {
            Some(e) => if e.compartment == compartment { before.push(e.token) } else { before },
            None => before,
        }
    }
}

/// Number of occupied slots among the first `n`.
pub open spec fn occupied_count(slots: Seq<Option<EntryView>>, n: int) -> nat
    decreases n,
{
    if n <= 0 {
        0
    } else {
        occupied_count(slots, n - 1) + if slots[n - 1] is Some { 1nat } else { 0nat }
    }
}

/// A fixed table of token slots.
pub struct CapabilityDatabase {
    entries: Vec<Option<CapabilityEntry>>,
    next_id: u64,
}

impl View for CapabilityDatabase {
    type V = DatabaseView;

    closed spec fn view(&self) -> DatabaseView {
        DatabaseView { slots: self.entries@.map_values(|slot: Option<CapabilityEntry>| slot_view(slot)), next_id: self.next_id }
    }
}

/// What inserting an entry does: it takes the first free slot, and the
/// answer is the database's next identifier (which it does not advance).
pub open spec fn insert_outcome(db: DatabaseView, entry: EntryView) -> (DatabaseView, Result<u64, BrokerError>) {
    match free_slot(db.slots) {
        Some(i) => (DatabaseView { slots: db.slots.update(i, Some(entry)), ..db }, Ok(db.next_id)),
        None => (db, Err(BrokerError::DatabaseError)),
    }
}

/// The entry a token is stored as.
pub open spec fn new_entry(token: CapTokenView, resource: ResourceView, compartment: Seq<char>) -> EntryView {
    EntryView { token, resource, compartment, is_delegated: false, parent_id: None }
}

impl CapabilityDatabase {
    pub closed spec fn wf(&self) -> bool {
        self.entries@.len() == MAX_CAPABILITIES
    }

    /// All slots free; identifiers start at 1.
    pub fn new() -> (db: CapabilityDatabase)
        ensures
            db.wf(),
            db@.slots == Seq::new(MAX_CAPABILITIES as nat, |i: int| None::<EntryView>),
            db@.next_id == 1,
    {
        let mut entries: Vec<Option<CapabilityEntry>> = Vec::new();
        let mut i: usize = 0;
        while i < MAX_CAPABILITIES
            invariant
                0 <= i <= MAX_CAPABILITIES,
                entries@.len() == i,
                forall|j: int| 0 <= j < i ==> entries@[j] is None,
            decreases MAX_CAPABILITIES - i,
        {
            entries.push(None);
            i = i + 1;
        }
        let db = CapabilityDatabase { entries, next_id: 1 };
        assert(db@.slots =~= Seq::new(MAX_CAPABILITIES as nat, |i: int| None::<EntryView>));
        db
    }

    /// Stores a token in the first free slot; answers the database's next
    /// identifier, or `DatabaseError` when no slot is free.
    pub fn insert(&mut self, token: CapToken, resource_spec: ResourceSpec, compartment: String) -> (r: Result<u64, BrokerError>)
        requires
            old(self).wf(),
        ensures
            final(self).wf(),
            (final(self)@, r) == insert_outcome(old(self)@, new_entry(token@, resource_spec@, compartment@)),
    {
        let ghost slots = self@.slots;
        let ghost entry = new_entry(token@, resource_spec@, compartment@);
        let ghost entries0 = self.entries@;
        let mut i: usize = 0;
        while i < MAX_CAPABILITIES
            invariant
                self.wf(),
                self@ == old(self)@,
                self.entries@ == entries0,
                entry == new_entry(token@, resource_spec@, compartment@),
                slots == self@.slots,
                0 <= i <= MAX_CAPABILITIES,
                forall|j: int| 0 <= j < i ==> !is_free()(#[trigger] slots[j]),
            decreases MAX_CAPABILITIES - i,
        {
            if self.entries[i].is_none() {
                proof {
                    lemma_first_slot_scan(slots, is_free(), 0, i as int);
                }
                let e = CapabilityEntry {
                    token,
                    resource_spec,
                    compartment,
                    is_delegated: false,
                    parent_id: None,
                };
                let ghost ev = e@;
                assert(ev == entry);
                self.entries.set(i, Some(e));
                assert forall|j: int| 0 <= j < MAX_CAPABILITIES implies #[trigger] self@.slots[j] == slots.update(i as int, Some(entry))[j] by {
                    if j == i {
                        assert(self.entries@[j] == Some(e));
                    } else {
                        assert(self.entries@[j] == entries0[j]);
                    }
                }
                assert(self@.slots =~= slots.update(i as int, Some(entry)));
                return Ok(self.next_id);
            }
            i = i + 1;
        }
        proof {
            lemma_first_slot_scan(slots, is_free(), 0, MAX_CAPABILITIES as int);
        }
        Err(BrokerError::DatabaseError)
    }

    fn find_index(&self, id: u64) -> (r: Option<usize>)
        requires
            self.wf(),
        ensures
            match find_slot(self@.slots, id) {
                Some(i) => r == Some(i as usize),
                None => r is None,
            },
            r matches Some(i) ==> i < self@.slots.len(),
    {
        let ghost slots = self@.slots;
        let mut i: usize = 0;
        while i < MAX_CAPABILITIES
            invariant
                self.wf(),
                slots == self@.slots,
                0 <= i <= MAX_CAPABILITIES,
                forall|j: int| 0 <= j < i ==> !holds_id(id)(#[trigger] slots[j]),
            decreases MAX_CAPABILITIES - i,
        {
            match &self.entries[i] {
                Some(e) => {
                    if e.token.id == id {
                        proof {
                            lemma_first_slot_scan(slots, holds_id(id), 0, i as int);
                        }
                        return Some(i);
                    }
                },
                None => {},
            }
            i = i + 1;
        }
        proof {
            lemma_first_slot_scan(slots, holds_id(id), 0, MAX_CAPABILITIES as int);
        }
        None
    }

    /// The entry of the first slot holding the token with identifier `id`.
    pub fn find(&self, id: u64) -> (r: Option<&CapabilityEntry>)
        requires
            self.wf(),
        ensures
            match find_slot(self@.slots, id) {
                Some(i) => r matches Some(e) && Some(e@) == self@.slots[i],
                None => r is None,
            },
    {
        proof {
            lemma_first_slot(self@.slots, holds_id(id), 0);
        }
        match self.find_index(id) {
            Some(i) => self.entries[i].as_ref(),
            None => None,
        }
    }

    /// Mutable access to the entry of the first slot holding the token with
    /// identifier `id`.
    pub fn find_mut(&mut self, id: u64) -> (r: Option<&mut CapabilityEntry>)
        requires
            old(self).wf(),
        ensures
            final(self).wf(),
            final(self)@.next_id == old(self)@.next_id,
            match find_slot(old(self)@.slots, id) {
                Some(i) => r matches Some(e) && Some((*e)@) == old(self)@.slots[i]
                    && final(self)@.slots == old(self)@.slots.update(i, Some((*final(e))@)),
                None => r is None && final(self)@ == old(self)@,
            },
    {
        proof {
            lemma_first_slot(self@.slots, holds_id(id), 0);
        }
        match self.find_index(id) {
            Some(i) => self.entries[i].as_mut(),
            None => None,
        }
    }

    /// Takes the first entry holding the token with identifier `id` out of
    /// the database; `TokenNotFound` when there is none.
    pub fn remove(&mut self, id: u64) -> (r: Result<CapabilityEntry, BrokerError>)
        requires
            old(self).wf(),
        ensures
            final(self).wf(),
            final(self)@.next_id == old(self)@.next_id,
            match find_slot(old(self)@.slots, id) {
                Some(i) => r matches Ok(e) && Some(e@) == old(self)@.slots[i]
                    && final(self)@.slots == old(self)@.slots.update(i, None),
                None => r == Err::<CapabilityEntry, BrokerError>(BrokerError::TokenNotFound) && final(self)@ == old(self)@,
            },
    {
        proof {
            lemma_first_slot(self@.slots, holds_id(id), 0);
        }
        match self.find_index(id) {
            Some(i) => {
                let ghost slots = self@.slots;
                let mut taken: Option<CapabilityEntry> = None;
                let ghost before = self.entries@;
                std::mem::swap(&mut taken, &mut self.entries[i]);
                assert(taken == before[i as int]);
                assert forall|j: int| 0 <= j < MAX_CAPABILITIES implies #[trigger] self@.slots[j] == slots.update(i as int, None)[j] by {
                    if j != i {
                        assert(self.entries@[j] == before[j]);
                    }
                }
                assert(self@.slots =~= slots.update(i as int, None));
                match taken {
                    Some(e) => Ok(e),
                    None => Err(BrokerError::TokenNotFound),
                }
            },
            None => Err(BrokerError::TokenNotFound),
        }
    }

    /// All the tokens owned by `compartment`, in slot order.
    pub fn list_by_compartment(&self, compartment: &str) -> (r: Vec<&CapToken>)
        requires
            self.wf(),
        ensures
            r@.map_values(|t: &CapToken| t@) == compartment_tokens(self@.slots, compartment@, MAX_CAPABILITIES as int),
    {
        let ghost slots = self@.slots;
        let mut result: Vec<&CapToken> = Vec::new();
        let mut i: usize = 0;
        while i < MAX_CAPABILITIES
            invariant
                self.wf(),
                slots == self@.slots,
                0 <= i <= MAX_CAPABILITIES,
                result@.map_values(|t: &CapToken| t@) == compartment_tokens(slots, compartment@, i as int),
            decreases MAX_CAPABILITIES - i,
        {
            let ghost before = compartment_tokens(slots, compartment@, i as int);
            match &self.entries[i] {
                Some(e) => {
                    assert(slots[i as int] == Some(e@));
                    if str_equal(e.compartment.as_str(), compartment) {
                        let ghost old_result = result@;
                        result.push(&e.token);
                        proof {
                            assert(compartment_tokens(slots, compartment@, i + 1) == before.push(e.token@));
                            assert(result@.map_values(|t: &CapToken| t@) =~= old_result.map_values(|t: &CapToken| t@).push(e.token@));
                        }
                    } else {
                        assert(compartment_tokens(slots, compartment@, i + 1) == before);
                    }
                },
                None => {
                    assert(compartment_tokens(slots, compartment@, i + 1) == before);
                },
            }
            i = i + 1;
        }
        result
    }

    /// Hands out the next identifier and advances it.
    pub fn next_id(&mut self) -> (id: u64)
        requires
            old(self).wf(),
            old(self)@.next_id < u64::MAX,
        ensures
            final(self).wf(),
            id == old(self)@.next_id,
            final(self)@ == (DatabaseView { next_id: (old(self)@.next_id + 1) as u64, ..old(self)@ }),
    {
        let id = self.next_id;
        self.next_id = self.next_id + 1;
        id
    }

    /// The identifier `next_id` would hand out.
    pub fn peek_next_id(&self) -> (id: u64)
        ensures
            id == self@.next_id,
    {
        self.next_id
    }

    /// Number of occupied slots.
    pub fn count(&self) -> (n: usize)
        requires
            self.wf(),
        ensures
            n == occupied_count(self@.slots, MAX_CAPABILITIES as int),
    {
        let ghost slots = self@.slots;
        let mut count: usize = 0;
        let mut i: usize = 0;
        while i < MAX_CAPABILITIES
            invariant
                self.wf(),
                slots == self@.slots,
                0 <= i <= MAX_CAPABILITIES,
                count == occupied_count(slots, i as int),
                count <= i,
            decreases MAX_CAPABILITIES - i,
        {
            if self.entries[i].is_some() {
                count = count + 1;
            }
            i = i + 1;
        }
        count
    }
}

// ---------------------------------------------------------------------------
// Request handling
// ---------------------------------------------------------------------------

/// Request codes.
pub const CREATE_CAPABILITY: u64 = 1;
pub const REVOKE_CAPABILITY: u64 = 2;
pub const DELEGATE_CAPABILITY: u64 = 3;
pub const INSPECT_COMPARTMENT: u64 = 4;
pub const LIST_CAPABILITIES: u64 = 5;

/// The broker's state.
pub struct CapabilityBroker {
    pub database: CapabilityDatabase,
    pub broker_compartment: String,
}

/// Name of a numbered compartment.
pub open spec fn compartment_name(cid: u32) -> Seq<char> {
    "compartment_"@ + ascii_chars(decimal(cid as nat))
}

/// The resource a created capability grants.
pub open spec fn example_resource() -> ResourceView {
    ResourceView::Filesystem { path: "/tmp/example"@, read: true, write: false, execute: false, delegatable: true }
}

/// The token created for a compartment.
pub open spec fn created_token(id: u64, cid: u32) -> CapTokenView {
    CapTokenView {
        id: id,
        description: "Capability for compartment "@ + ascii_chars(decimal(cid as nat)),
        compartment: compartment_name(cid),
        delegatable: true,
        parent_id: 0,
    }
}

/// Handling a create request: a fresh identifier, a token for the
/// compartment named by the second word, stored in the database; the
/// answer is 1 (success) followed by the identifier, as every client reads
/// it.
pub open spec fn create_outcome(db: DatabaseView, m: Seq<u64>) -> (DatabaseView, Result<Seq<u64>, BrokerError>) {
    let cid = word_or_zero(m, 1) as u32;
    let id = db.next_id;
    let db1 = DatabaseView { next_id: (id + 1) as u64, ..db };
    let t = created_token(id, cid);
    let (db2, r) = insert_outcome(db1, new_entry(t, example_resource(), t.compartment));
    (db2, match r {
        Ok(_) => Ok(seq![1u64, id]),
        Err(e) => Err(e),
    })
}

/// Handling a revoke request: the token named by the second word leaves
/// the database; the answer is 1, 1.
pub open spec fn revoke_outcome(db: DatabaseView, m: Seq<u64>) -> (DatabaseView, Result<Seq<u64>, BrokerError>) {
    let id = word_or_zero(m, 1);
    match find_slot(db.slots, id) {
        Some(i) => (DatabaseView { slots: db.slots.update(i, None), ..db }, Ok(seq![1u64, 1u64])),
        None => (db, Err(BrokerError::TokenNotFound)),
    }
}

/// Handling an inspect request: 1 and the number of tokens of the
/// compartment named by the second word.
pub open spec fn inspect_outcome(db: DatabaseView, m: Seq<u64>) -> (DatabaseView, Result<Seq<u64>, BrokerError>) {
    let cid = word_or_zero(m, 1) as u32;
    (db, Ok(seq![1u64, compartment_tokens(db.slots, compartment_name(cid), MAX_CAPABILITIES as int).len() as u64]))
}

/// Handling a list request: 1 and the number of stored tokens.
pub open spec fn list_outcome(db: DatabaseView) -> (DatabaseView, Result<Seq<u64>, BrokerError>) {
    (db, Ok(seq![1u64, occupied_count(db.slots, MAX_CAPABILITIES as int) as u64]))
}

/// The words of a response: the handler's answer, or 0 and the error code.
pub open spec fn response_words(r: Result<Seq<u64>, BrokerError>) -> Seq<u64> {
    match r {
        Ok(w) => w,
        Err(e) => seq![0u64, error_code(e)],
    }
}

/// Handling any request, by the code in its first word.
pub open spec fn request_outcome(db: DatabaseView, m: Seq<u64>) -> (DatabaseView, Seq<u64>) {
    let (db2, r) = if word_or_zero(m, 0) == CREATE_CAPABILITY {
        create_outcome(db, m)
    } else if word_or_zero(m, 0) == REVOKE_CAPABILITY {
        revoke_outcome(db, m)
    } else if word_or_zero(m, 0) == DELEGATE_CAPABILITY {
        (db, Ok(seq![0u64]))
    } else if word_or_zero(m, 0) == INSPECT_COMPARTMENT {
        inspect_outcome(db, m)
    } else if word_or_zero(m, 0) == LIST_CAPABILITIES {
        list_outcome(db)
    } else {
        (db, Err(BrokerError::InvalidRequest))
    };
    (db2, response_words(r))
}

/// The words of a handler's result.
pub open spec fn result_words(r: Result<Message, BrokerError>) -> Result<Seq<u64>, BrokerError> {
    match r {
        Ok(m) => Ok(m@),
        Err(e) => Err(e),
    }
}

fn compartment_string(cid: u32) -> (s: String)
    ensures
        s@ == compartment_name(cid),
{
    let mut s = String::new();
    push_str(&mut s, "compartment_");
    push_decimal(&mut s, cid as u64);
    s
}

fn two_words(a: u64, b: u64) -> (m: Message)
    ensures
        m@ == seq![a, b],
{
    let mut m = Message::new();
    let _ = m.push_int(a);
    let _ = m.push_int(b);
    m
}

impl CapabilityBroker {
    pub open spec fn wf(&self) -> bool {
        self.database.wf()
    }

    /// A broker with an empty database.
    pub fn new() -> (b: CapabilityBroker)
        ensures
            b.wf(),
            b.database@.slots == Seq::new(MAX_CAPABILITIES as nat, |i: int| None::<EntryView>),
            b.database@.next_id == 1,
            b.broker_compartment@ == "cap_broker"@,
    {
        CapabilityBroker { database: CapabilityDatabase::new(), broker_compartment: "cap_broker".to_string() }
    }

    /// Checks the boot message from the root task (`None` when receiving
    /// failed): it must start with the word 1.
    pub fn receive_boot_init(&self, boot_message: Option<&Message>) -> (r: Result<(), BrokerError>)
        ensures
            match boot_message {
                None => r == Err::<(), BrokerError>(BrokerError::IPCError),
                Some(m) => if word_or_zero(m@, 0) == 1 {
                    r is Ok
                } else {
                    r == Err::<(), BrokerError>(BrokerError::InvalidRequest)
                },
            },
    {
        match boot_message {
            None => Err(BrokerError::IPCError),
            Some(m) => {
                if m.get_int(0).unwrap_or(0) != 1 {
                    Err(BrokerError::InvalidRequest)
                } else {
                    Ok(())
                }
            },
        }
    }

    /// Stores the orchestrate token (identifier 1, owned by the broker).
    pub fn create_orchestrate_token(&mut self) -> (r: Result<(), BrokerError>)
        requires
            old(self).wf(),
        ensures
            final(self).wf(),
            final(self).broker_compartment@ == old(self).broker_compartment@,
            ({
                let t = CapTokenView {
                    id: 1,
                    description: "Initial orchestrate capability for Aura"@,
                    compartment: old(self).broker_compartment@,
                    delegatable: true,
                    parent_id: 0,
                };
                let (db, res) = insert_outcome(
                    old(self).database@,
                    new_entry(t, ResourceView::Orchestrate { can_chain: true }, old(self).broker_compartment@),
                );
                final(self).database@ == db && (r is Ok <==> res is Ok) && (res matches Err(e) ==> r == Err::<(), BrokerError>(e))
            }),
    {
        let token = CapToken {
            id: 1,
            description: "Initial orchestrate capability for Aura".to_string(),
            compartment: self.broker_compartment.clone(),
            delegatable: true,
            parent_id: 0,
        };
        let resource = ResourceSpec { resource: Resource::Orchestrate(OrchestrateResource { can_chain: true }) };
        let compartment = self.broker_compartment.clone();
        match self.database.insert(token, resource, compartment) {
            Ok(_) => Ok(()),
            Err(e) => Err(e),
        }
    }

    /// Initializes the broker with the boot message: checks it, then stores
    /// the orchestrate token.
    pub fn initialize(&mut self, boot_message: Option<&Message>) -> (r: Result<(), BrokerError>)
        requires
            old(self).wf(),
        ensures
            final(self).wf(),
            final(self).broker_compartment@ == old(self).broker_compartment@,
            match boot_message {
                None => r == Err::<(), BrokerError>(BrokerError::IPCError) && final(self).database@ == old(self).database@,
                Some(m) => if word_or_zero(m@, 0) != 1 {
                    r == Err::<(), BrokerError>(BrokerError::InvalidRequest) && final(self).database@ == old(self).database@
                } else {
                    let t = CapTokenView {
                        id: 1,
                        description: "Initial orchestrate capability for Aura"@,
                        compartment: old(self).broker_compartment@,
                        delegatable: true,
                        parent_id: 0,
                    };
                    let (db, res) = insert_outcome(
                        old(self).database@,
                        new_entry(t, ResourceView::Orchestrate { can_chain: true }, old(self).broker_compartment@),
                    );
                    final(self).database@ == db && (r is Ok <==> res is Ok) && (res matches Err(e) ==> r == Err::<(), BrokerError>(e))
                },
            },
    {
        match self.receive_boot_init(boot_message) {
            Ok(()) => {},
            Err(e) => {
                return Err(e);
            },
        }
        self.create_orchestrate_token()
    }

    /// Handles a create request.
    pub fn handle_create_capability(&mut self, message: &Message) -> (r: Result<Message, BrokerError>)
        requires
            old(self).wf(),
            old(self).database@.next_id < u64::MAX,
        ensures
            final(self).wf(),
            final(self).broker_compartment@ == old(self).broker_compartment@,
            (final(self).database@, result_words(r)) == create_outcome(old(self).database@, message@),
    {
        let compartment_id = message.get_int(1).unwrap_or(0) as u32;
        let token_id = self.database.next_id();
        let mut description = String::new();
        push_str(&mut description, "Capability for compartment ");
        push_decimal(&mut description, compartment_id as u64);
        let token = CapToken {
            id: token_id,
            description,
            compartment: compartment_string(compartment_id),
            delegatable: true,
            parent_id: 0,
        };
        let resource_spec = ResourceSpec {
            resource: Resource::Filesystem(FilesystemResource {
                path: "/tmp/example".to_string(),
                read: true,
                write: false,
                execute: false,
                delegatable: true,
            }),
        };
        let owner = token.compartment.clone();
        match self.database.insert(token.copy(), resource_spec, owner) {
            Ok(_) => {},
            Err(e) => {
                return Err(e);
            },
        }
        Ok(two_words(1, token_id))
    }

    /// Handles a revoke request.
    pub fn handle_revoke_capability(&mut self, message: &Message) -> (r: Result<Message, BrokerError>)
        requires
            old(self).wf(),
        ensures
            final(self).wf(),
            final(self).broker_compartment@ == old(self).broker_compartment@,
            (final(self).database@, result_words(r)) == revoke_outcome(old(self).database@, message@),
    {
        let token_id = message.get_int(1).unwrap_or(0);
        match self.database.remove(token_id) {
            Ok(_) => {},
            Err(e) => {
                return Err(e);
            },
        }
        Ok(two_words(1, 1))
    }

    /// Handles a delegate request (not supported: answers 0).
    pub fn handle_delegate_capability(&mut self, message: &Message) -> (r: Result<Message, BrokerError>)
        requires
            old(self).wf(),
        ensures
            final(self).wf(),
            final(self).broker_compartment@ == old(self).broker_compartment@,
            final(self).database@ == old(self).database@,
            result_words(r) == Ok::<Seq<u64>, BrokerError>(seq![0u64]),
    {
        let mut response = Message::new();
        let _ = response.push_int(0);
        Ok(response)
    }

    /// Handles an inspect request.
    pub fn handle_inspect_compartment(&mut self, message: &Message) -> (r: Result<Message, BrokerError>)
        requires
            old(self).wf(),
        ensures
            final(self).wf(),
            final(self).broker_compartment@ == old(self).broker_compartment@,
            (final(self).database@, result_words(r)) == inspect_outcome(old(self).database@, message@),
    {
        let compartment_id = message.get_int(1).unwrap_or(0) as u32;
        let compartment_name = compartment_string(compartment_id);
        let capabilities = self.database.list_by_compartment(compartment_name.as_str());
        let count = capabilities.len();
        assert(capabilities@.map_values(|t: &CapToken| t@).len() == capabilities@.len());
        Ok(two_words(1, count as u64))
    }

    /// Handles a list request.
    pub fn handle_list_capabilities(&mut self, message: &Message) -> (r: Result<Message, BrokerError>)
        requires
            old(self).wf(),
        ensures
            final(self).wf(),
            final(self).broker_compartment@ == old(self).broker_compartment@,
            (final(self).database@, result_words(r)) == list_outcome(old(self).database@),
    {
        let count = self.database.count();
        Ok(two_words(1, count as u64))
    }

    /// The response for a handler's result: the answer itself, or 0 and the
    /// error's code.
    pub fn create_response_message(&self, result: Result<Message, BrokerError>) -> (r: Result<Message, BrokerError>)
        ensures
            r matches Ok(m) && m@ == response_words(result_words(result)),
    {
        match result {
            Ok(message) => Ok(message),
            Err(error) => Ok(two_words(0, error.code())),
        }
    }

    /// Handles one request and gives the response to send back.
    pub fn handle_request(&mut self, message: &Message) -> (response: Message)
        requires
            old(self).wf(),
            old(self).database@.next_id < u64::MAX,
        ensures
            final(self).wf(),
            final(self).broker_compartment@ == old(self).broker_compartment@,
            (final(self).database@, response@) == request_outcome(old(self).database@, message@),
    {
        let request_type = message.get_int(0).unwrap_or(0);
        let result = if request_type == CREATE_CAPABILITY {
            self.handle_create_capability(message)
        } else if request_type == REVOKE_CAPABILITY {
            self.handle_revoke_capability(message)
        } else if request_type == DELEGATE_CAPABILITY {
            self.handle_delegate_capability(message)
        } else if request_type == INSPECT_COMPARTMENT {
            self.handle_inspect_compartment(message)
        } else if request_type == LIST_CAPABILITIES {
            self.handle_list_capabilities(message)
        } else {
            Err(BrokerError::InvalidRequest)
        };
        match self.create_response_message(result) {
            Ok(m) => m,
            Err(_) => Message::new(),
        }
    }
}

/// Whether `compartment` holds all of `required_capabilities`; every
/// compartment is taken to hold them.
pub fn verify_capability_held(compartment: &str, required_capabilities: &[RequiredCapability]) -> (r: Result<bool, BrokerError>)
    ensures
        r == Ok::<bool, BrokerError>(true),
{
    let mut i: usize = 0;
    while i < required_capabilities.len()
        invariant
            0 <= i <= required_capabilities@.len(),
        decreases required_capabilities@.len() - i,
    {
        i = i + 1;
    }
    Ok(true)
}

/// A temporary capability for `compartment`: identifier 0, not delegatable.
pub fn create_temporary_capability(resource_spec: ResourceSpec, compartment: &str, duration_ms: u32) -> (r: Result<CapToken, BrokerError>)
    ensures
        r matches Ok(t) && t@ == (CapTokenView {
            id: 0,
            description: "Temporary capability"@,
            compartment: compartment@,
            delegatable: false,
            parent_id: 0,
        }),
{
    let mut owner = String::new();
    push_str(&mut owner, compartment);
    Ok(CapToken {
        id: 0,
        description: "Temporary capability".to_string(),
        compartment: owner,
        delegatable: false,
        parent_id: 0,
    })
}

} // verus!

verus! {

// ---------------------------------------------------------------------------
// Laws of the database
// ---------------------------------------------------------------------------

/// Occupied slots among the first `n` after one slot changes.
proof fn lemma_occupied_update(slots: Seq<Option<EntryView>>, i: int, v: Option<EntryView>, n: int)
    requires
        0 <= i < slots.len(),
        0 <= n <= slots.len(),
    ensures
        occupied_count(slots.update(i, v), n) == occupied_count(slots, n)
            - (if i < n && slots[i] is Some { 1int } else { 0int })
            + (if i < n && v is Some { 1int } else { 0int }),
    decreases n,
{
    if n > 0 {
        lemma_occupied_update(slots, i, v, n - 1);
    }
}

/// A stored token can be found again: after an insert succeeds, looking up
/// its identifier finds a token with that identifier, and finds the
/// inserted one itself when no other token had that identifier.
pub proof fn lemma_insert_then_find(db: DatabaseView, entry: EntryView)
    requires
        db.slots.len() == MAX_CAPABILITIES,
        insert_outcome(db, entry).1 is Ok,
    ensures
        ({
            let after = insert_outcome(db, entry).0;
            &&& find_slot(after.slots, entry.token.id) matches Some(k) && after.slots[k] matches Some(e)
                && e.token.id == entry.token.id
            &&& find_slot(db.slots, entry.token.id) is None ==> (find_slot(after.slots, entry.token.id) matches Some(k)
                && after.slots[k] == Some(entry))
        }),
{
    let i = free_slot(db.slots)->0;
    lemma_first_slot(db.slots, is_free(), 0);
    let after = insert_outcome(db, entry).0;
    assert(after.slots[i] == Some(entry));
    assert(holds_id(entry.token.id)(after.slots[i]));
    lemma_first_slot(after.slots, holds_id(entry.token.id), 0);
    if find_slot(after.slots, entry.token.id) is None {
        assert(!holds_id(entry.token.id)(after.slots[i]));
    }
    if find_slot(db.slots, entry.token.id) is None {
        lemma_first_slot(db.slots, holds_id(entry.token.id), 0);
        let k = find_slot(after.slots, entry.token.id)->0;
        if k != i {
            assert(after.slots[k] == db.slots[k]);
            assert(!holds_id(entry.token.id)(db.slots[k]));
        }
    }
}

/// Inserting a token whose identifier is not yet stored, then removing that
/// identifier, gives the database back as it was.
pub proof fn lemma_insert_remove_roundtrip(db: DatabaseView, entry: EntryView)
    requires
        db.slots.len() == MAX_CAPABILITIES,
        insert_outcome(db, entry).1 is Ok,
        find_slot(db.slots, entry.token.id) is None,
    ensures
        ({
            let after = insert_outcome(db, entry).0;
            find_slot(after.slots, entry.token.id) matches Some(k)
                && after.slots[k] == Some(entry)
                && after.slots.update(k, None) == db.slots
        }),
{
    lemma_insert_then_find(db, entry);
    let i = free_slot(db.slots)->0;
    lemma_first_slot(db.slots, is_free(), 0);
    let after = insert_outcome(db, entry).0;
    let k = find_slot(after.slots, entry.token.id)->0;
    lemma_first_slot(after.slots, holds_id(entry.token.id), 0);
    if k != i {
        assert(after.slots[k] == db.slots[k]);
        lemma_first_slot(db.slots, holds_id(entry.token.id), 0);
        assert(!holds_id(entry.token.id)(db.slots[k]));
    }
    assert(after.slots.update(k, None) =~= db.slots);
}

/// A successful insert stores one more token; a successful revoke removes
/// exactly one.
pub proof fn lemma_count_changes(db: DatabaseView, entry: EntryView, id: u64)
    requires
        db.slots.len() == MAX_CAPABILITIES,
    ensures
        insert_outcome(db, entry).1 is Ok ==> occupied_count(insert_outcome(db, entry).0.slots, MAX_CAPABILITIES as int)
            == occupied_count(db.slots, MAX_CAPABILITIES as int) + 1,
        find_slot(db.slots, id) matches Some(k) ==> occupied_count(db.slots.update(k, None), MAX_CAPABILITIES as int)
            == occupied_count(db.slots, MAX_CAPABILITIES as int) - 1,
{
    lemma_first_slot(db.slots, is_free(), 0);
    lemma_first_slot(db.slots, holds_id(id), 0);
    if let Some(i) = free_slot(db.slots) {
        lemma_occupied_update(db.slots, i, Some(entry), MAX_CAPABILITIES as int);
    }
    if let Some(k) = find_slot(db.slots, id) {
        lemma_occupied_update(db.slots, k, None, MAX_CAPABILITIES as int);
    }
}

/// An insert fails exactly when every slot is taken.
pub proof fn lemma_insert_fails_only_when_full(db: DatabaseView, entry: EntryView)
    requires
        db.slots.len() == MAX_CAPABILITIES,
    ensures
        insert_outcome(db, entry).1 is Err <==> forall|i: int| 0 <= i < MAX_CAPABILITIES ==> #[trigger] db.slots[i] is Some,
{
    lemma_first_slot(db.slots, is_free(), 0);
    if insert_outcome(db, entry).1 is Ok {
        let i = free_slot(db.slots)->0;
        assert(db.slots[i] is None);
    }
}

/// A successful create is answered with the success flag first and the
/// new identifier second, as clients read it.
pub proof fn lemma_create_reply_success_flag(db: DatabaseView, m: Seq<u64>)
    ensures
        create_outcome(db, m).1 matches Ok(w) ==> w.len() == 2 && word_or_zero(w, 0) == 1
            && word_or_zero(w, 1) == db.next_id,
{
}

/// A successful create stores the new capability in a slot that was free,
/// under the identifier it answers with, and changes no other slot: the
/// token can be delegated, has no parent, belongs to `compartment_<n>` for
/// the compartment number `n` in the request (as does the entry), and grants
/// read-only access to `/tmp/example`; the entry is not a delegated one. The
/// next identifier handed out is one more.
pub proof fn lemma_create_stores_delegatable_token(db: DatabaseView, m: Seq<u64>)
    requires
        db.next_id < u64::MAX,
    ensures
        ({
            let (db2, r) = create_outcome(db, m);
            let owner = "compartment_"@ + ascii_chars(decimal((word_or_zero(m, 1) as u32) as nat));
            r is Ok ==> {
                &&& db2.next_id == db.next_id + 1
                &&& exists|i: int| {
                    &&& 0 <= i < db.slots.len()
                    &&& #[trigger] db.slots[i] is None
                    &&& db2.slots.len() == db.slots.len()
                    &&& forall|j: int| 0 <= j < db.slots.len() && j != i ==> #[trigger] db2.slots[j] == db.slots[j]
                    &&& db2.slots[i] matches Some(e) && {
                        &&& e.token.id == r->Ok_0[1]
                        &&& e.token.id == db.next_id
                        &&& e.token.delegatable
                        &&& e.token.parent_id == 0
                        &&& e.token.compartment == owner
                        &&& e.compartment == owner
                        &&& !e.is_delegated
                        &&& e.parent_id is None
                        &&& e.resource == (ResourceView::Filesystem {
                            path: "/tmp/example"@,
                            read: true,
                            write: false,
                            execute: false,
                            delegatable: true,
                        })
                    }
                }
            }
        }),
{
    let id = db.next_id;
    let db1 = DatabaseView { next_id: (id + 1) as u64, ..db };
    lemma_first_slot(db1.slots, is_free(), 0);
    let (db2, r) = create_outcome(db, m);
    if r is Ok {
        let i = free_slot(db1.slots)->0;
        assert(db.slots[i] is None);
        assert(db2.slots[i] is Some);
    }
}

/// Two create requests in a row hand out different identifiers, one after
/// the other.
pub proof fn lemma_successive_creates_distinct(db: DatabaseView, m1: Seq<u64>, m2: Seq<u64>)
    requires
        db.next_id + 1 < u64::MAX,
    ensures
        ({
            let (db1, r1) = create_outcome(db, m1);
            let (db2, r2) = create_outcome(db1, m2);
            r1 is Ok && r2 is Ok ==> r1->Ok_0[1] == db.next_id && r2->Ok_0[1] == db.next_id + 1
                && r1->Ok_0[1] != r2->Ok_0[1]
        }),
{
}

/// Only create and revoke requests change the database; any request whose
/// code is not one of the five is answered 0, 0.
pub proof fn lemma_request_effects(db: DatabaseView, m: Seq<u64>)
    ensures
        word_or_zero(m, 0) != CREATE_CAPABILITY && word_or_zero(m, 0) != REVOKE_CAPABILITY
            ==> request_outcome(db, m).0 == db,
        (word_or_zero(m, 0) < CREATE_CAPABILITY || word_or_zero(m, 0) > LIST_CAPABILITIES)
            ==> request_outcome(db, m).1 == seq![0u64, 0u64],
{
}

/// Every request a client sends to create a capability starts with the
/// broker's create code.
pub proof fn lemma_requests_are_creates(code: u8, universe: u64, app: u64)
    ensures
        word_or_zero(crate::aura::intent_request_words(code), 0) == CREATE_CAPABILITY,
        word_or_zero(seq![1u64, universe, app, 1u64], 0) == CREATE_CAPABILITY,
{
}

} // verus!
