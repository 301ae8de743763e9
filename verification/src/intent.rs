//! Loop Intent Language (LIL) intents: what Aura builds from a command and
//! hands to the capability broker.

use vstd::prelude::*;
use vstd::string::StringSliceAdditionalSpecFns;
use crate::aura::AuraError;

verus! {

/// Most parameters one intent carries.
pub const MAX_PARAMS: usize = 16;

/// Most required capabilities one intent declares.
pub const MAX_REQUIRED_CAPABILITIES: usize = 8;

/// The action a user asks for.
#[derive(Debug, Clone, Copy, PartialEq, Eq, Structural)]
pub enum IntentType {
    Open,
    Compose,
    Search,
    Move,
    Copy,
    Delete,
    Send,
    Schedule,
    Query,
    Configure,
    Install,
    Uninstall,
}

/// Wire code of each intent type.
pub open spec fn intent_code(t: IntentType) -> u8 {
    match t {
        IntentType::Open => 0,
        IntentType::Compose => 1,
        IntentType::Search => 2,
        IntentType::Move => 3,
        IntentType::Copy => 4,
        IntentType::Delete => 5,
        IntentType::Send => 6,
        IntentType::Schedule => 7,
        IntentType::Query => 8,
        IntentType::Configure => 9,
        IntentType::Install => 10,
        IntentType::Uninstall => 11,
    }
}

/// JSON name of each intent type.
pub open spec fn intent_name(t: IntentType) -> Seq<u8> {
    match t {
        IntentType::Open => "open".spec_bytes(),
        IntentType::Compose => "compose".spec_bytes(),
        IntentType::Search => "search".spec_bytes(),
        IntentType::Move => "move".spec_bytes(),
        IntentType::Copy => "copy".spec_bytes(),
        IntentType::Delete => "delete".spec_bytes(),
        IntentType::Send => "send".spec_bytes(),
        IntentType::Schedule => "schedule".spec_bytes(),
        IntentType::Query => "query".spec_bytes(),
        IntentType::Configure => "configure".spec_bytes(),
        IntentType::Install => "install".spec_bytes(),
        IntentType::Uninstall => "uninstall".spec_bytes(),
    }
}

/// The LIL schema's intent names, in wire-code order.
pub open spec fn lil_intent_names() -> Seq<Seq<u8>> {
    seq![
        "open".spec_bytes(),
        "compose".spec_bytes(),
        "search".spec_bytes(),
        "move".spec_bytes(),
        "copy".spec_bytes(),
        "delete".spec_bytes(),
        "send".spec_bytes(),
        "schedule".spec_bytes(),
        "query".spec_bytes(),
        "configure".spec_bytes(),
        "install".spec_bytes(),
        "uninstall".spec_bytes(),
    ]
}

/// The length and first byte of each intent type's name.
proof fn name_key(t: IntentType) -> (k: (nat, u8))
    ensures
        k == (intent_name(t).len(), intent_name(t)[0]),
        k == (match t {
            IntentType::Open => (4nat, 111u8),
            IntentType::Compose => (7nat, 99u8),
            IntentType::Search => (6nat, 115u8),
            IntentType::Move => (4nat, 109u8),
            IntentType::Copy => (4nat, 99u8),
            IntentType::Delete => (6nat, 100u8),
            IntentType::Send => (4nat, 115u8),
            IntentType::Schedule => (8nat, 115u8),
            IntentType::Query => (5nat, 113u8),
            IntentType::Configure => (9nat, 99u8),
            IntentType::Install => (7nat, 105u8),
            IntentType::Uninstall => (9nat, 117u8),
        }),
{
    broadcast use vstd::string::is_ascii_spec_bytes;

    match t {
        IntentType::Open => {
            reveal_strlit("open");
            assert(vstd::string::is_ascii("open"));
        },
        IntentType::Compose => {
            reveal_strlit("compose");
            assert(vstd::string::is_ascii("compose"));
        },
        IntentType::Search => {
            reveal_strlit("search");
            assert(vstd::string::is_ascii("search"));
        },
        IntentType::Move => {
            reveal_strlit("move");
            assert(vstd::string::is_ascii("move"));
        },
        IntentType::Copy => {
            reveal_strlit("copy");
            assert(vstd::string::is_ascii("copy"));
        },
        IntentType::Delete => {
            reveal_strlit("delete");
            assert(vstd::string::is_ascii("delete"));
        },
        IntentType::Send => {
            reveal_strlit("send");
            assert(vstd::string::is_ascii("send"));
        },
        IntentType::Schedule => {
            reveal_strlit("schedule");
            assert(vstd::string::is_ascii("schedule"));
        },
        IntentType::Query => {
            reveal_strlit("query");
            assert(vstd::string::is_ascii("query"));
        },
        IntentType::Configure => {
            reveal_strlit("configure");
            assert(vstd::string::is_ascii("configure"));
        },
        IntentType::Install => {
            reveal_strlit("install");
            assert(vstd::string::is_ascii("install"));
        },
        IntentType::Uninstall => {
            reveal_strlit("uninstall");
            assert(vstd::string::is_ascii("uninstall"));
        },
    }
    (intent_name(t).len(), intent_name(t)[0])
}

/// The wire code and the JSON name of an intent type agree with the LIL
/// schema: the code is the name's position in the schema's list, so each
/// type has its own code below 12 and its own name. In particular two
/// different types never share a code or a name.
pub proof fn lemma_intent_schema(t1: IntentType, t2: IntentType)
    ensures
        intent_code(t1) < 12,
        lil_intent_names()[intent_code(t1) as int] == intent_name(t1),
        intent_code(t1) == intent_code(t2) ==> t1 == t2,
        intent_name(t1) == intent_name(t2) ==> t1 == t2,
{
    let k1 = name_key(t1);
    let k2 = name_key(t2);
}

impl IntentType {
    /// The intent type's wire code.
    pub fn code(&self) -> (c: u8)
        ensures
            c == intent_code(*self),
    {
        match self {
            IntentType::Open => 0,
            IntentType::Compose => 1,
            IntentType::Search => 2,
            IntentType::Move => 3,
            IntentType::Copy => 4,
            IntentType::Delete => 5,
            IntentType::Send => 6,
            IntentType::Schedule => 7,
            IntentType::Query => 8,
            IntentType::Configure => 9,
            IntentType::Install => 10,
            IntentType::Uninstall => 11,
        }
    }

    /// The intent type's JSON name.
    pub fn name(&self) -> (s: &'static str)
        ensures
            s.spec_bytes() == intent_name(*self),
    {
        match self {
            IntentType::Open => "open",
            IntentType::Compose => "compose",
            IntentType::Search => "search",
            IntentType::Move => "move",
            IntentType::Copy => "copy",
            IntentType::Delete => "delete",
            IntentType::Send => "send",
            IntentType::Schedule => "schedule",
            IntentType::Query => "query",
            IntentType::Configure => "configure",
            IntentType::Install => "install",
            IntentType::Uninstall => "uninstall",
        }
    }
}

/// Names of intent parameters.
#[derive(Debug, Clone, Copy, PartialEq, Eq, Structural)]
pub enum ParamKey {
    Target,
    AppId,
    Query,
    Scope,
    To,
    Subject,
    Body,
    Title,
    Start,
    End,
    Setting,
    Value,
}

/// A parameter value: text in a fixed 128-byte field with a stated length,
/// an integer, or a flag.
#[derive(Debug, Clone, Copy)]
pub enum ParamValue {
    String([u8; 128], usize),
    Integer(u64),
    Boolean(bool),
}

/// The mathematical value of a parameter.
pub enum ParamValueView {
    Text(Seq<u8>, usize),
    Integer(u64),
    Boolean(bool),
}

impl View for ParamValue {
    type V = ParamValueView;

    open spec fn view(&self) -> ParamValueView {
        match self {
            ParamValue::String(data, len) => ParamValueView::Text(data@, *len),
            ParamValue::Integer(n) => ParamValueView::Integer(*n),
            ParamValue::Boolean(b) => ParamValueView::Boolean(*b),
        }
    }
}

/// `b` in a zero-filled field of `n` bytes (longer input is cut off).
pub open spec fn fixed_field(b: Seq<u8>, n: nat) -> Seq<u8> {
    Seq::new(n, |i: int| if i < b.len() { b[i] } else { 0u8 })
}

/// `field` with its first bytes replaced by those of `b` (as far as they fit).
pub open spec fn overwrite_prefix(field: Seq<u8>, b: Seq<u8>) -> Seq<u8> {
    Seq::new(field.len(), |i: int| if i < b.len() { b[i] } else { field[i] })
}

/// The smaller of two numbers.
pub open spec fn min_nat(a: nat, b: nat) -> nat {
    if a <= b { a } else { b }
}

/// Writes the first bytes of `b` into `field`, as many as fit; returns how
/// many were written.
pub fn copy_prefix<const N: usize>(field: &mut [u8; N], b: &[u8]) -> (n: usize)
    ensures
        n == min_nat(b@.len(), N as nat),
        final(field)@ == overwrite_prefix(old(field)@, b@),
{
    let mut i: usize = 0;
    while i < b.len() && i < N
        invariant
            0 <= i <= N,
            i <= b@.len(),
            field@.len() == N,
            old(field)@.len() == N,
            forall|j: int| 0 <= j < N ==> field@[j] == (if j < i { b@[j] } else { old(field)@[j] }),
        decreases N - i,
    {
        field[i] = b[i];
        i = i + 1;
    }
    assert(field@ =~= overwrite_prefix(old(field)@, b@));
    i
}

/// `s` in a zero-filled 128-byte field.
pub fn str_to_fixed_array(s: &str) -> (a: [u8; 128])
    ensures
        a@ == fixed_field(s.spec_bytes(), 128),
{
    let mut a = [0u8; 128];
    let ghost zeros = a@;
    assert(zeros =~= fixed_field(Seq::empty(), 128));
    copy_prefix(&mut a, s.as_bytes());
    assert(a@ =~= fixed_field(s.spec_bytes(), 128));
    a
}

/// The parameters of an intent, in the order they were added.
pub struct IntentParams {
    pub keys: Vec<ParamKey>,
    pub values: Vec<ParamValue>,
}

impl IntentParams {
    pub open spec fn wf(&self) -> bool {
        &&& self.keys@.len() == self.values@.len()
        &&& self.keys@.len() <= MAX_PARAMS
    }

    /// The (key, value) pairs.
    pub open spec fn pairs(&self) -> Seq<(ParamKey, ParamValueView)> {
        Seq::new(self.keys@.len(), |i: int| (self.keys@[i], self.values@[i]@))
    }

    /// No parameters.
    pub fn new() -> (p: IntentParams)
        ensures
            p.wf(),
            p.pairs() == Seq::<(ParamKey, ParamValueView)>::empty(),
    {
        let p = IntentParams { keys: Vec::new(), values: Vec::new() };
        assert(p.pairs() =~= Seq::<(ParamKey, ParamValueView)>::empty());
        p
    }

    /// Number of parameters.
    pub fn count(&self) -> (n: usize)
        requires
            self.wf(),
        ensures
            n == self.pairs().len(),
    {
        self.keys.len()
    }
}

/// A capability the intent needs: its type (at most 32 bytes) and the
/// resource identifier (at most 128 bytes).
pub struct RequiredCapability {
    pub type_str: [u8; 32],
    pub type_len: usize,
    pub identifier: [u8; 128],
    pub identifier_len: usize,
}

impl RequiredCapability {
    pub open spec fn wf(&self) -> bool {
        &&& self.type_len <= 32
        &&& self.identifier_len <= 128
    }

    /// The type and identifier bytes.
    pub open spec fn spec_view(&self) -> (Seq<u8>, Seq<u8>) {
        (self.type_str@.take(self.type_len as int), self.identifier@.take(self.identifier_len as int))
    }

    /// An empty declaration.
    pub fn new() -> (c: RequiredCapability)
        ensures
            c.wf(),
            c.spec_view() == (Seq::<u8>::empty(), Seq::<u8>::empty()),
            c.type_str@ == Seq::new(32, |i: int| 0u8),
            c.identifier@ == Seq::new(128, |i: int| 0u8),
    {
        let c = RequiredCapability { type_str: [0u8; 32], type_len: 0, identifier: [0u8; 128], identifier_len: 0 };
        assert(c.spec_view().0 =~= Seq::<u8>::empty());
        assert(c.spec_view().1 =~= Seq::<u8>::empty());
        assert(c.type_str@ =~= Seq::new(32, |i: int| 0u8));
        assert(c.identifier@ =~= Seq::new(128, |i: int| 0u8));
        c
    }
}

/// Session identifier and the natural-language echo of the command.
pub struct IntentContext {
    pub session_id: [u8; 32],
    pub echo: [u8; 256],
    pub echo_len: usize,
}

impl IntentContext {
    /// An empty context.
    pub fn new() -> (c: IntentContext)
        ensures
            c.session_id@ == Seq::new(32, |i: int| 0u8),
            c.echo@ == Seq::new(256, |i: int| 0u8),
            c.echo_len == 0,
    {
        let c = IntentContext { session_id: [0u8; 32], echo: [0u8; 256], echo_len: 0 };
        assert(c.session_id@ =~= Seq::new(32, |i: int| 0u8));
        assert(c.echo@ =~= Seq::new(256, |i: int| 0u8));
        c
    }
}

/// The mathematical value of an intent.
pub struct LILIntentView {
    pub intent: IntentType,
    pub params: Seq<(ParamKey, ParamValueView)>,
    pub required_capabilities: Seq<(Seq<u8>, Seq<u8>)>,
    pub confirmation_required: bool,
    pub session_id: Seq<u8>,
    pub echo: Seq<u8>,
    pub echo_len: usize,
}

/// An intent as the schema describes it.
pub struct LILIntent {
    pub intent: IntentType,
    pub params: IntentParams,
    pub required_capabilities: Vec<RequiredCapability>,
    pub confirmation_required: bool,
    pub context: IntentContext,
}

impl View for LILIntent {
    type V = LILIntentView;

    open spec fn view(&self) -> LILIntentView {
        LILIntentView {
            intent: self.intent,
            params: self.params.pairs(),
            required_capabilities: Seq::new(
                self.required_capabilities@.len(),
                |i: int| self.required_capabilities@[i].spec_view(),
            ),
            confirmation_required: self.confirmation_required,
            session_id: self.context.session_id@,
            echo: self.context.echo@,
            echo_len: self.context.echo_len,
        }
    }
}

/// The value of a fresh intent: a query with nothing in it.
pub open spec fn empty_intent() -> LILIntentView {
    LILIntentView {
        intent: IntentType::Query,
        params: Seq::empty(),
        required_capabilities: Seq::empty(),
        confirmation_required: false,
        session_id: Seq::new(32, |i: int| 0u8),
        echo: Seq::new(256, |i: int| 0u8),
        echo_len: 0,
    }
}

/// Declaring a required capability: type cut to 32 bytes, identifier to 128.
pub open spec fn capability_entry(type_str: Seq<u8>, identifier: Seq<u8>) -> (Seq<u8>, Seq<u8>) {
    (type_str.take(min_nat(type_str.len(), 32) as int), identifier.take(min_nat(identifier.len(), 128) as int))
}

impl LILIntent {
    pub open spec fn wf(&self) -> bool {
        &&& self.params.wf()
        &&& self.required_capabilities@.len() <= MAX_REQUIRED_CAPABILITIES
        &&& forall|i: int| 0 <= i < self.required_capabilities@.len() ==> #[trigger] self.required_capabilities@[i].wf()
    }

    /// A query intent with no parameters, capabilities or context.
    pub fn new() -> (intent: LILIntent)
        ensures
            intent.wf(),
            intent@ == empty_intent(),
    {
        let intent = LILIntent {
            intent: IntentType::Query,
            params: IntentParams::new(),
            required_capabilities: Vec::new(),
            confirmation_required: false,
            context: IntentContext::new(),
        };
        assert(intent@.required_capabilities =~= Seq::<(Seq<u8>, Seq<u8>)>::empty());
        intent
    }

    /// Adds a parameter; fails with `InvalidIntent`, changing nothing, when
    /// the intent already has the most parameters it can hold.
    pub fn add_param(&mut self, key: ParamKey, value: ParamValue) -> (r: Result<(), AuraError>)
        requires
            old(self).wf(),
        ensures
            final(self).wf(),
            r is Ok <==> old(self)@.params.len() < MAX_PARAMS,
            r is Ok ==> final(self)@ == (LILIntentView { params: old(self)@.params.push((key, value@)), ..old(self)@ }),
            r is Err ==> r == Err::<(), AuraError>(AuraError::InvalidIntent) && final(self)@ == old(self)@,
    {
        if self.params.keys.len() >= MAX_PARAMS {
            return Err(AuraError::InvalidIntent);
        }
        let ghost before = self.params.pairs();
        self.params.keys.push(key);
        self.params.values.push(value);
        assert(self.params.pairs() =~= before.push((key, value@)));
        assert(self@.required_capabilities =~= old(self)@.required_capabilities);
        Ok(())
    }

    /// Declares a required capability (type cut to 32 bytes, identifier to
    /// 128); fails with `InvalidIntent`, changing nothing, when the intent
    /// already declares the most it can hold.
    pub fn add_required_capability(&mut self, type_str: &str, identifier: &str) -> (r: Result<(), AuraError>)
        requires
            old(self).wf(),
        ensures
            final(self).wf(),
            r is Ok <==> old(self)@.required_capabilities.len() < MAX_REQUIRED_CAPABILITIES,
            r is Ok ==> final(self)@ == (LILIntentView {
                required_capabilities: old(self)@.required_capabilities.push(
                    capability_entry(type_str.spec_bytes(), identifier.spec_bytes()),
                ),
                ..old(self)@
            }),
            r is Ok ==> final(self).required_capabilities@.drop_last() == old(self).required_capabilities@,
            r is Ok ==> final(self).required_capabilities@.last().type_str@ == fixed_field(type_str.spec_bytes(), 32),
            r is Ok ==> final(self).required_capabilities@.last().identifier@ == fixed_field(
                identifier.spec_bytes(),
                128,
            ),
            r is Err ==> r == Err::<(), AuraError>(AuraError::InvalidIntent) && final(self)@ == old(self)@,
    {
        if self.required_capabilities.len() >= MAX_REQUIRED_CAPABILITIES {
            return Err(AuraError::InvalidIntent);
        }
        let mut cap = RequiredCapability::new();
        let type_len = copy_prefix(&mut cap.type_str, type_str.as_bytes());
        cap.type_len = type_len;
        let identifier_len = copy_prefix(&mut cap.identifier, identifier.as_bytes());
        cap.identifier_len = identifier_len;
        assert(cap.type_str@ =~= fixed_field(type_str.spec_bytes(), 32));
        assert(cap.identifier@ =~= fixed_field(identifier.spec_bytes(), 128));
        assert(cap.spec_view().0 =~= capability_entry(type_str.spec_bytes(), identifier.spec_bytes()).0);
        assert(cap.spec_view().1 =~= capability_entry(type_str.spec_bytes(), identifier.spec_bytes()).1);
        let ghost before = self@.required_capabilities;
        self.required_capabilities.push(cap);
        assert(self@.required_capabilities =~= before.push(
            capability_entry(type_str.spec_bytes(), identifier.spec_bytes()),
        ));
        assert(self.required_capabilities@.drop_last() =~= old(self).required_capabilities@);
        Ok(())
    }

    /// Records the session identifier (its first 32 bytes overwrite the
    /// field's start) and echoes the command (its first 256 bytes overwrite
    /// the echo's start, and the echo length grows by their number).
    pub fn set_context(&mut self, session_id: &str, echo: &str) -> (r: Result<(), AuraError>)
        requires
            old(self).wf(),
            old(self).context.echo_len + min_nat(echo.spec_bytes().len(), 256) <= usize::MAX,
        ensures
            final(self).wf(),
            r is Ok,
            final(self)@ == (LILIntentView {
                session_id: overwrite_prefix(old(self)@.session_id, session_id.spec_bytes()),
                echo: overwrite_prefix(old(self)@.echo, echo.spec_bytes()),
                echo_len: (old(self)@.echo_len + min_nat(echo.spec_bytes().len(), 256)) as usize,
                ..old(self)@
            }),
    {
        copy_prefix(&mut self.context.session_id, session_id.as_bytes());
        let copied = copy_prefix(&mut self.context.echo, echo.as_bytes());
        self.context.echo_len = self.context.echo_len + copied;
        Ok(())
    }
}

} // verus!
