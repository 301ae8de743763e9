//! The root task's boot sequence: which untyped memory region backs each
//! kernel object of each compartment, the kernel calls that create and
//! start the compartments, in order, and what the root task does when one
//! of them fails. Performing the calls is left to the caller.

use vstd::prelude::*;
use crate::message::Message;

verus! {

/// Errors of the root task's boot sequence.
#[derive(Debug, Clone, Copy, PartialEq, Eq, Structural)]
pub enum RootTaskError {
    InsufficientMemory,
    CapabilityCreationFailed,
    ThreadConfigurationFailed,
    EndpointCreationFailed,
    MessageSendFailed,
    InvalidBootInfo,
}

/// A region of untyped memory handed over at boot.
#[derive(Debug, Clone, Copy, PartialEq, Eq, Structural)]
pub struct UntypedRegion {
    pub size: usize,
    pub is_device: bool,
}

/// A virtual address.
#[derive(Debug, Clone, Copy, PartialEq, Eq, Structural)]
pub struct VirtAddr(pub usize);

/// How to create one compartment.
pub struct CompartmentConfig {
    pub name: &'static str,
    pub entry_point: VirtAddr,
    pub stack_top: VirtAddr,
    pub cnode_size_bits: usize,
    pub needs_irq_control: bool,
}

/// Size (as a power of two) of the untyped memory backing a page directory.
pub const VSPACE_SIZE_BITS: usize = 12;
/// Size (as a power of two) of the untyped memory backing a thread control block.
pub const TCB_SIZE_BITS: usize = 9;
/// Size (as a power of two) of the untyped memory backing an endpoint.
pub const ENDPOINT_SIZE_BITS: usize = 4;

/// Number of compartments the root task creates.
pub const NUM_COMPARTMENTS: usize = 7;

/// Capability-space size of each compartment, in creation order: broker,
/// shell, driver VM, Aura, and the Linux, Windows and Android universe
/// managers.
pub open spec fn boot_cnode_bits() -> Seq<usize> {
    seq![12usize, 10usize, 11usize, 10usize, 10usize, 10usize, 10usize]
}

fn config(name: &'static str, entry: usize, stack: usize, bits: usize, irq: bool) -> (c: CompartmentConfig)
    ensures
        c.name == name,
        c.entry_point == VirtAddr(entry),
        c.stack_top == VirtAddr(stack),
        c.cnode_size_bits == bits,
        c.needs_irq_control == irq,
{
    CompartmentConfig { name, entry_point: VirtAddr(entry), stack_top: VirtAddr(stack), cnode_size_bits: bits, needs_irq_control: irq }
}

/// The compartments, in creation order.
pub fn compartment_configs() -> (v: Vec<CompartmentConfig>)
    ensures
        v@.len() == NUM_COMPARTMENTS,
        forall|i: int| 0 <= i < NUM_COMPARTMENTS ==> #[trigger] v@[i].cnode_size_bits == boot_cnode_bits()[i],
        forall|i: int| 0 <= i < NUM_COMPARTMENTS ==> (#[trigger] v@[i].cnode_size_bits, v@[i].entry_point, v@[i].stack_top) == boot_layout()[i],
        v@[0].name == "cap_broker" && v@[0].entry_point == VirtAddr(0x400000) && v@[0].stack_top == VirtAddr(0x500000) && !v@[0].needs_irq_control,
        v@[1].name == "desktop_shell" && v@[1].entry_point == VirtAddr(0x600000) && v@[1].stack_top == VirtAddr(0x700000) && !v@[1].needs_irq_control,
        v@[2].name == "driver_vm" && v@[2].entry_point == VirtAddr(0x800000) && v@[2].stack_top == VirtAddr(0x900000) && v@[2].needs_irq_control,
        v@[3].name == "aura_orchestrator" && v@[3].entry_point == VirtAddr(0xA00000) && v@[3].stack_top == VirtAddr(0xB00000) && !v@[3].needs_irq_control,
        v@[4].name == "linux_universe_mgr" && v@[4].entry_point == VirtAddr(0xC00000) && v@[4].stack_top == VirtAddr(0xD00000) && !v@[4].needs_irq_control,
        v@[5].name == "windows_universe_mgr" && v@[5].entry_point == VirtAddr(0xE00000) && v@[5].stack_top == VirtAddr(0xF00000) && !v@[5].needs_irq_control,
        v@[6].name == "android_universe_mgr" && v@[6].entry_point == VirtAddr(0x1000000) && v@[6].stack_top == VirtAddr(0x1100000) && !v@[6].needs_irq_control,
{
    let mut v: Vec<CompartmentConfig> = Vec::new();
    v.push(config("cap_broker", 0x400000, 0x500000, 12, false));
    v.push(config("desktop_shell", 0x600000, 0x700000, 10, false));
    v.push(config("driver_vm", 0x800000, 0x900000, 11, true));
    v.push(config("aura_orchestrator", 0xA00000, 0xB00000, 10, false));
    v.push(config("linux_universe_mgr", 0xC00000, 0xD00000, 10, false));
    v.push(config("windows_universe_mgr", 0xE00000, 0xF00000, 10, false));
    v.push(config("android_universe_mgr", 0x1000000, 0x1100000, 10, false));
    v
}

/// The boot information is usable: it lists at least one untyped region.
pub fn validate_boot_info(regions: &[UntypedRegion]) -> (r: Result<(), RootTaskError>)
    ensures
        r is Ok <==> regions@.len() > 0,
        r is Err ==> r == Err::<(), RootTaskError>(RootTaskError::InvalidBootInfo),
{
    if regions.len() == 0 {
        Err(RootTaskError::InvalidBootInfo)
    } else {
        Ok(())
    }
}

/// A region can back an object of `2^bits` bytes: it is that large and is
/// not device memory.
pub open spec fn usable(region: UntypedRegion, bits: nat) -> bool {
    region.size >= vstd::arithmetic::power2::pow2(bits) && !region.is_device
}

/// The first region, from index `i` on, that can back an object of
/// `2^bits` bytes.
pub open spec fn first_fit_from(regions: Seq<UntypedRegion>, bits: nat, i: int) -> Option<int>
    decreases regions.len() - i,
{
    if i < 0 || i >= regions.len() {
        None
    } else if usable(regions[i], bits) {
        Some(i)
    } else {
        first_fit_from(regions, bits, i + 1)
    }
}

/// Taking a region for an object of `2^bits` bytes, searching from
/// `current`: the region's index and where the next search starts; once
/// no region fits, the search position is the end.
pub open spec fn take_region(regions: Seq<UntypedRegion>, current: int, bits: nat) -> (int, Option<int>) {
    match first_fit_from(regions, bits, current) {
        Some(k) => (k + 1, Some(k)),
        None => (regions.len() as int, None),
    }
}

/// The regions backing one compartment's objects.
#[derive(Debug, Clone, Copy, PartialEq, Eq, Structural)]
pub struct CompartmentPlan {
    pub cnode_region: usize,
    pub vspace_region: usize,
    pub tcb_region: usize,
    pub endpoint_region: usize,
}

/// Planning one compartment: its capability space, page directory, thread
/// control block and endpoint, in that order.
pub open spec fn plan_one(regions: Seq<UntypedRegion>, current: int, cnode_bits: nat) -> (int, Option<CompartmentPlan>) {
    let (c1, a) = take_region(regions, current, cnode_bits);
    let (c2, b) = take_region(regions, c1, VSPACE_SIZE_BITS as nat);
    let (c3, c) = take_region(regions, c2, TCB_SIZE_BITS as nat);
    let (c4, d) = take_region(regions, c3, ENDPOINT_SIZE_BITS as nat);
    match (a, b, c, d) {
        (Some(a), Some(b), Some(c), Some(d)) => (c4, Some(CompartmentPlan {
            cnode_region: a as usize,
            vspace_region: b as usize,
            tcb_region: c as usize,
            endpoint_region: d as usize,
        })),
        _ => if a is None {
            (c1, None)
        } else if b is None {
            (c2, None)
        } else if c is None {
            (c3, None)
        } else {
            (c4, None)
        },
    }
}

/// Planning compartments in order until one cannot be backed: the plans
/// made, where the search stands, and whether all were planned.
pub open spec fn plan_all(regions: Seq<UntypedRegion>, current: int, cnode_bits: Seq<usize>) -> (Seq<CompartmentPlan>, int, bool)
    decreases cnode_bits.len(),
{
    if cnode_bits.len() == 0 {
        (Seq::empty(), current, true)
    } else {
        let (c1, p) = plan_one(regions, current, cnode_bits[0] as nat);
        match p {
            None => (Seq::empty(), c1, false),
            Some(plan) => {
                let (rest, c2, ok) = plan_all(regions, c1, cnode_bits.drop_first());
                (seq![plan] + rest, c2, ok)
            },
        }
    }
}

/// Hands out untyped regions first-fit, never going back.
pub struct RegionAllocator {
    pub regions: Vec<UntypedRegion>,
    pub current: usize,
}

impl RegionAllocator {
    pub open spec fn wf(&self) -> bool {
        self.current <= self.regions@.len()
    }

    /// An allocator over `regions`, searching from the first.
    pub fn new(regions: Vec<UntypedRegion>) -> (a: RegionAllocator)
        ensures
            a.wf(),
            a.regions@ == regions@,
            a.current == 0,
    {
        RegionAllocator { regions, current: 0 }
    }

    /// The next region, from the current position on, that can back an
    /// object of `2^size_bits` bytes; `InsufficientMemory` when none can.
    pub fn get_untyped(&mut self, size_bits: usize) -> (r: Result<usize, RootTaskError>)
        requires
            old(self).wf(),
            size_bits < usize::BITS,
        ensures
            final(self).wf(),
            final(self).regions@ == old(self).regions@,
            (final(self).current as int, match r {
                Ok(k) => Some(k as int),
                Err(_) => None::<int>,
            }) == take_region(old(self).regions@, old(self).current as int, size_bits as nat),
            r is Err ==> r == Err::<usize, RootTaskError>(RootTaskError::InsufficientMemory),
    {
        proof {
            vstd::bits::lemma_usize_pow2_no_overflow(size_bits as nat);
            vstd::bits::lemma_usize_shl_is_mul(1, size_bits);
        }
        let required_size: usize = 1usize << size_bits;
        let ghost regions = self.regions@;
        let ghost start = self.current as int;
        while self.current < self.regions.len()
            invariant
                self.wf(),
                self.regions@ == regions,
                regions == old(self).regions@,
                start == old(self).current as int,
                start <= self.current,
                required_size == vstd::arithmetic::power2::pow2(size_bits as nat),
                first_fit_from(regions, size_bits as nat, start) == first_fit_from(regions, size_bits as nat, self.current as int),
            decreases regions.len() - self.current,
        {
            let region = self.regions[self.current];
            if region.size >= required_size && !region.is_device {
                let k = self.current;
                self.current = self.current + 1;
                return Ok(k);
            }
            self.current = self.current + 1;
        }
        Err(RootTaskError::InsufficientMemory)
    }

    /// The regions backing one compartment's capability space, page
    /// directory, thread control block and endpoint.
    pub fn plan_compartment(&mut self, cnode_size_bits: usize) -> (r: Result<CompartmentPlan, RootTaskError>)
        requires
            old(self).wf(),
            cnode_size_bits < usize::BITS,
        ensures
            final(self).wf(),
            final(self).regions@ == old(self).regions@,
            (final(self).current as int, match r {
                Ok(p) => Some(p),
                Err(_) => None::<CompartmentPlan>,
            }) == plan_one(old(self).regions@, old(self).current as int, cnode_size_bits as nat),
            r is Err ==> r == Err::<CompartmentPlan, RootTaskError>(RootTaskError::InsufficientMemory),
    {
        let cnode_region = self.get_untyped(cnode_size_bits)?;
        let vspace_region = self.get_untyped(VSPACE_SIZE_BITS)?;
        let tcb_region = self.get_untyped(TCB_SIZE_BITS)?;
        let endpoint_region = self.get_untyped(ENDPOINT_SIZE_BITS)?;
        Ok(CompartmentPlan { cnode_region, vspace_region, tcb_region, endpoint_region })
    }
}

/// Where each compartment's objects come from, how far planning got, and
/// where the regions left for the broker start.
pub struct BootPlan {
    pub compartments: Vec<CompartmentPlan>,
    pub outcome: Result<(), RootTaskError>,
    pub remaining_start: usize,
}

/// Plans the boot: the compartments in creation order, until one cannot be
/// backed by the remaining untyped memory.
pub fn plan_boot(regions: Vec<UntypedRegion>) -> (plan: BootPlan)
    ensures
        ({
            let (plans, current, ok) = plan_all(regions@, 0, boot_cnode_bits());
            &&& plan.compartments@ == plans
            &&& plan.remaining_start == current
            &&& (plan.outcome is Ok <==> ok)
            &&& (plan.outcome is Err ==> plan.outcome == Err::<(), RootTaskError>(RootTaskError::InsufficientMemory))
        }),
{
    let ghost all = regions@;
    let configs = compartment_configs();
    let mut allocator = RegionAllocator::new(regions);
    let mut compartments: Vec<CompartmentPlan> = Vec::new();
    let mut i: usize = 0;
    proof {
        assert(boot_cnode_bits().skip(0) =~= boot_cnode_bits());
        let (rest, current, ok) = plan_all(all, 0, boot_cnode_bits());
        assert(compartments@ + rest =~= rest);
    }
    while i < configs.len()
        invariant
            configs@.len() == NUM_COMPARTMENTS,
            forall|j: int| 0 <= j < NUM_COMPARTMENTS ==> #[trigger] configs@[j].cnode_size_bits == boot_cnode_bits()[j],
            allocator.wf(),
            allocator.regions@ == all,
            all == regions@,
            0 <= i <= NUM_COMPARTMENTS,
            ({
                let (rest, current, ok) = plan_all(all, allocator.current as int, boot_cnode_bits().skip(i as int));
                plan_all(all, 0, boot_cnode_bits()) == (compartments@ + rest, current, ok)
            }),
        decreases NUM_COMPARTMENTS - i,
    {
        let ghost before = allocator.current as int;
        let bits = configs[i].cnode_size_bits;
        proof {
            assert(boot_cnode_bits().skip(i as int)[0] == boot_cnode_bits()[i as int]);
            assert(boot_cnode_bits().skip(i as int).drop_first() =~= boot_cnode_bits().skip(i + 1));
            assert(bits < usize::BITS) by {
                assert(bits == boot_cnode_bits()[i as int]);
            }
        }
        match allocator.plan_compartment(bits) {
            Ok(p) => {
                let ghost prev = compartments@;
                compartments.push(p);
                proof {
                    let (rest, c2, ok) = plan_all(all, allocator.current as int, boot_cnode_bits().skip(i + 1));
                    assert(compartments@ + rest =~= prev + (seq![p] + rest));
                }
            },
            Err(e) => {
                proof {
                    assert(compartments@ + Seq::<CompartmentPlan>::empty() =~= compartments@);
                }
                proof {
                    let tail = boot_cnode_bits().skip(i as int);
                    assert(tail.len() > 0);
                    assert(tail[0] == bits);
                    assert(plan_one(all, before, bits as nat).1 is None);
                    assert(plan_all(all, before, tail) == (Seq::<CompartmentPlan>::empty(), allocator.current as int, false));
                }
                return BootPlan { compartments, outcome: Err(e), remaining_start: allocator.current };
            },
        }
        i = i + 1;
    }
    proof {
        assert(boot_cnode_bits().skip(NUM_COMPARTMENTS as int) =~= Seq::<usize>::empty());
        assert(compartments@ + Seq::<CompartmentPlan>::empty() =~= compartments@);
    }
    BootPlan { compartments, outcome: Ok(()), remaining_start: allocator.current }
}

/// The message telling the broker that boot is complete: the single word 1.
pub fn send_broker_init_message() -> (r: Result<Message, RootTaskError>)
    ensures
        r matches Ok(m) && m@ == seq![1u64],
{
    let mut message = Message::new();
    match message.push_int(1) {
        Ok(()) => Ok(message),
        Err(_) => Err(RootTaskError::MessageSendFailed),
    }
}

/// The kernel objects of a created compartment.
#[derive(Debug, Clone, Copy, PartialEq, Eq, Structural)]
pub enum CompartmentObject {
    CNode,
    VSpace,
    Tcb,
    Endpoint,
    IrqControl,
}

/// The order in which a compartment's capabilities are deleted when it is
/// cleaned up: endpoint, thread, address space, IRQ control (if held), and
/// the capability space last.
pub fn cleanup_order(has_irq_control: bool) -> (v: Vec<CompartmentObject>)
    ensures
        v@ == if has_irq_control {
            seq![CompartmentObject::Endpoint, CompartmentObject::Tcb, CompartmentObject::VSpace, CompartmentObject::IrqControl, CompartmentObject::CNode]
        } else {
            seq![CompartmentObject::Endpoint, CompartmentObject::Tcb, CompartmentObject::VSpace, CompartmentObject::CNode]
        },
{
    let mut v: Vec<CompartmentObject> = Vec::new();
    v.push(CompartmentObject::Endpoint);
    v.push(CompartmentObject::Tcb);
    v.push(CompartmentObject::VSpace);
    if has_irq_control {
        v.push(CompartmentObject::IrqControl);
    }
    v.push(CompartmentObject::CNode);
    v
}


// ---------------------------------------------------------------------------
// The kernel calls of the boot sequence
// ---------------------------------------------------------------------------

/// Where each compartment lives, in creation order: its capability-space
/// size, entry point and stack top.
pub open spec fn boot_layout() -> Seq<(usize, VirtAddr, VirtAddr)> {
    seq![
        (12usize, VirtAddr(0x400000), VirtAddr(0x500000)),
        (10usize, VirtAddr(0x600000), VirtAddr(0x700000)),
        (11usize, VirtAddr(0x800000), VirtAddr(0x900000)),
        (10usize, VirtAddr(0xA00000), VirtAddr(0xB00000)),
        (10usize, VirtAddr(0xC00000), VirtAddr(0xD00000)),
        (10usize, VirtAddr(0xE00000), VirtAddr(0xF00000)),
        (10usize, VirtAddr(0x1000000), VirtAddr(0x1100000)),
    ]
}

/// One kernel call the root task makes while booting. Compartments are
/// numbered in creation order; regions by their index in the boot
/// information.
#[derive(Debug, Clone, Copy, PartialEq, Eq, Structural)]
pub enum KernelAction {
    /// Turn untyped memory from `region` into `object` of `2^size_bits`
    /// bytes for `compartment`.
    Retype { compartment: usize, object: CompartmentObject, region: usize, size_bits: usize },
    /// Drop the untyped capability taken from `region` (its result is not
    /// checked).
    DeleteUntyped { region: usize },
    /// Bind the compartment's thread to its capability space and page
    /// directory, and set where it starts and its stack.
    Configure { compartment: usize, entry_point: VirtAddr, stack_top: VirtAddr },
    /// Send the boot-complete message (the single word 1) to the
    /// compartment's endpoint.
    SendInit { compartment: usize },
    /// Start the compartment's thread.
    Resume { compartment: usize },
    /// Delete one of the compartment's objects (its result is not checked).
    Delete { compartment: usize, object: CompartmentObject },
}

/// Creating one object: take a region for it from `current` on, retype it
/// and drop the untyped capability. The actions, where the region search
/// stands, and whether a region was found.
pub open spec fn object_step(
    regions: Seq<UntypedRegion>,
    current: int,
    compartment: usize,
    object: CompartmentObject,
    size_bits: usize,
) -> (Seq<KernelAction>, int, bool) {
    let (next, found) = take_region(regions, current, size_bits as nat);
    match found {
        Some(k) => (
            seq![
                KernelAction::Retype { compartment, object, region: k as usize, size_bits },
                KernelAction::DeleteUntyped { region: k as usize },
            ],
            next,
            true,
        ),
        None => (Seq::empty(), next, false),
    }
}

/// Creating compartment `c`: its capability space (`cnode_bits`), page
/// directory, thread control block and endpoint in that order, then the
/// thread's configuration; the broker (compartment 0) is then sent the
/// boot-complete message. Stops where no region is left for an object.
#[verifier::opaque]
pub open spec fn compartment_actions(
    regions: Seq<UntypedRegion>,
    current: int,
    c: usize,
    cnode_bits: usize,
    entry_point: VirtAddr,
    stack_top: VirtAddr,
) -> (Seq<KernelAction>, int, bool) {
    let (a1, c1, ok1) = object_step(regions, current, c, CompartmentObject::CNode, cnode_bits);
    let (a2, c2, ok2) = object_step(regions, c1, c, CompartmentObject::VSpace, VSPACE_SIZE_BITS);
    let (a3, c3, ok3) = object_step(regions, c2, c, CompartmentObject::Tcb, TCB_SIZE_BITS);
    let (a4, c4, ok4) = object_step(regions, c3, c, CompartmentObject::Endpoint, ENDPOINT_SIZE_BITS);
    if !ok1 {
        (a1, c1, false)
    } else if !ok2 {
        (a1 + a2, c2, false)
    } else if !ok3 {
        (a1 + a2 + a3, c3, false)
    } else if !ok4 {
        (a1 + a2 + a3 + a4, c4, false)
    } else {
        let configure = seq![KernelAction::Configure { compartment: c, entry_point, stack_top }];
        let init = if c == 0 { seq![KernelAction::SendInit { compartment: 0 }] } else { Seq::empty() };
        (a1 + a2 + a3 + a4 + configure + init, c4, true)
    }
}

/// Creating compartments `i` onwards, searching regions from `current`:
/// the actions and whether every compartment could be created.
pub open spec fn creation_actions(regions: Seq<UntypedRegion>, current: int, i: nat) -> (Seq<KernelAction>, bool)
    decreases NUM_COMPARTMENTS - i,
{
    if i >= NUM_COMPARTMENTS {
        (Seq::empty(), true)
    } else {
        let (bits, entry, stack) = boot_layout()[i as int];
        let (acts, end, ok) = compartment_actions(regions, current, i as usize, bits, entry, stack);
        if !ok {
            (acts, false)
        } else {
            let (rest, all_ok) = creation_actions(regions, end, i + 1);
            (acts + rest, all_ok)
        }
    }
}

/// Starting every compartment, in creation order.
pub open spec fn resume_all() -> Seq<KernelAction> {
    Seq::new(NUM_COMPARTMENTS as nat, |i: int| KernelAction::Resume { compartment: i as usize })
}

/// The boot's kernel calls when each of them succeeds: every compartment
/// created, then all of them started. When the untyped memory runs out
/// the calls stop there and the boot fails with `InsufficientMemory`.
pub open spec fn boot_actions(regions: Seq<UntypedRegion>) -> (Seq<KernelAction>, Result<(), RootTaskError>) {
    let (acts, ok) = creation_actions(regions, 0, 0);
    if ok {
        (acts + resume_all(), Ok(()))
    } else {
        (acts, Err(RootTaskError::InsufficientMemory))
    }
}

/// What undoing one action takes: deleting the object a retype made.
pub open spec fn undo(a: KernelAction) -> Seq<KernelAction> {
    match a {
        KernelAction::Retype { compartment, object, .. } => seq![KernelAction::Delete { compartment, object }],
        _ => Seq::empty(),
    }
}

/// Cleaning up after `done`: every object its retypes made is deleted,
/// newest first.
pub open spec fn cleanup_for(done: Seq<KernelAction>) -> Seq<KernelAction>
    decreases done.len(),
{
    if done.len() == 0 {
        Seq::empty()
    } else {
        undo(done.last()) + cleanup_for(done.drop_last())
    }
}

/// Whether the boot stops when this action fails: the deletes' results are
/// not checked.
pub open spec fn checked(a: KernelAction) -> bool {
    !(a is DeleteUntyped || a is Delete)
}

/// The error a failed action gives: creating a capability space, page
/// directory or thread control block fails with `CapabilityCreationFailed`,
/// an endpoint with `EndpointCreationFailed`, configuring or starting a
/// thread with `ThreadConfigurationFailed`, the boot message with
/// `MessageSendFailed`.
pub open spec fn action_error(a: KernelAction) -> RootTaskError {
    match a {
        KernelAction::Retype { object: CompartmentObject::Endpoint, .. } => RootTaskError::EndpointCreationFailed,
        KernelAction::Retype { .. } => RootTaskError::CapabilityCreationFailed,
        KernelAction::SendInit { .. } => RootTaskError::MessageSendFailed,
        _ => RootTaskError::ThreadConfigurationFailed,
    }
}

/// The boot's kernel calls, their outcome when all succeed, and where the
/// regions left over for the broker start.
pub struct BootScript {
    pub actions: Vec<KernelAction>,
    pub outcome: Result<(), RootTaskError>,
    pub remaining_start: usize,
}

/// What the root task does next.
pub enum BootStep {
    /// Perform the action at this index.
    Next(usize),
    /// Boot failed: perform these deletes, then stop with `error`.
    Failed { cleanup: Vec<KernelAction>, error: RootTaskError },
    /// Every compartment is running.
    Finished,
}

/// Takes the region for one object and records its retype and the drop of
/// the untyped capability; false when no region is left.
fn retype_object(
    alloc: &mut RegionAllocator,
    compartment: usize,
    object: CompartmentObject,
    size_bits: usize,
    actions: &mut Vec<KernelAction>,
) -> (ok: bool)
    requires
        old(alloc).wf(),
        size_bits < usize::BITS,
    ensures
        final(alloc).wf(),
        final(alloc).regions@ == old(alloc).regions@,
        ({
            let (acts, next, found) = object_step(old(alloc).regions@, old(alloc).current as int, compartment, object, size_bits);
            &&& final(actions)@ == old(actions)@ + acts
            &&& final(alloc).current == next
            &&& ok == found
        }),
{
    match alloc.get_untyped(size_bits) {
        Ok(region) => {
            actions.push(KernelAction::Retype { compartment, object, region, size_bits });
            actions.push(KernelAction::DeleteUntyped { region });
            true
        },
        Err(_) => false,
    }
}

/// Records the kernel calls that create compartment `index` from `config`;
/// false when the untyped memory ran out part way.
pub fn create_compartment(
    alloc: &mut RegionAllocator,
    index: usize,
    config: &CompartmentConfig,
    actions: &mut Vec<KernelAction>,
) -> (ok: bool)
    requires
        old(alloc).wf(),
        config.cnode_size_bits < usize::BITS,
    ensures
        final(alloc).wf(),
        final(alloc).regions@ == old(alloc).regions@,
        ({
            let (acts, next, done) = compartment_actions(
                old(alloc).regions@,
                old(alloc).current as int,
                index,
                config.cnode_size_bits,
                config.entry_point,
                config.stack_top,
            );
            &&& final(actions)@ == old(actions)@ + acts
            &&& final(alloc).current == next
            &&& ok == done
        }),
{
    reveal(compartment_actions);
    let ghost a0 = actions@;
    if !retype_object(alloc, index, CompartmentObject::CNode, config.cnode_size_bits, actions) {
        assert(actions@ =~= a0 + Seq::<KernelAction>::empty());
        return false;
    }
    let ghost a1 = actions@;
    if !retype_object(alloc, index, CompartmentObject::VSpace, VSPACE_SIZE_BITS, actions) {
        assert(actions@ =~= a0 + (a1.skip(a0.len() as int) + Seq::<KernelAction>::empty()));
        return false;
    }
    let ghost a2 = actions@;
    if !retype_object(alloc, index, CompartmentObject::Tcb, TCB_SIZE_BITS, actions) {
        assert(actions@ =~= a0 + (a1.skip(a0.len() as int) + a2.skip(a1.len() as int) + Seq::<KernelAction>::empty()));
        return false;
    }
    let ghost a3 = actions@;
    if !retype_object(alloc, index, CompartmentObject::Endpoint, ENDPOINT_SIZE_BITS, actions) {
        assert(actions@ =~= a0 + (a1.skip(a0.len() as int) + a2.skip(a1.len() as int) + a3.skip(a2.len() as int)
            + Seq::<KernelAction>::empty()));
        return false;
    }
    let ghost a4 = actions@;
    actions.push(KernelAction::Configure { compartment: index, entry_point: config.entry_point, stack_top: config.stack_top });
    if index == 0 {
        actions.push(KernelAction::SendInit { compartment: 0 });
    }
    proof {
        let init = if index == 0 { seq![KernelAction::SendInit { compartment: 0 }] } else { Seq::<KernelAction>::empty() };
        assert(actions@ =~= a0 + (a1.skip(a0.len() as int) + a2.skip(a1.len() as int) + a3.skip(a2.len() as int)
            + a4.skip(a3.len() as int) + seq![KernelAction::Configure { compartment: index, entry_point: config.entry_point, stack_top: config.stack_top }]
            + init));
    }
    true
}


/// The boot's kernel calls: the compartments created in order, each from
/// the untyped regions left after the previous one, then all started.
pub fn boot_sequence(regions: Vec<UntypedRegion>) -> (script: BootScript)
    ensures
        (script.actions@, script.outcome) == boot_actions(regions@),
        script.remaining_start <= regions@.len(),
{
    let ghost all = regions@;
    let configs = compartment_configs();
    let mut alloc = RegionAllocator::new(regions);
    let mut actions: Vec<KernelAction> = Vec::new();
    let mut i: usize = 0;
    proof {
        let (rest, ok) = creation_actions(all, 0, 0);
        assert(actions@ + rest =~= rest);
    }
    while i < configs.len()
        invariant
            configs@.len() == NUM_COMPARTMENTS,
            forall|j: int| 0 <= j < NUM_COMPARTMENTS ==> (#[trigger] configs@[j].cnode_size_bits, configs@[j].entry_point, configs@[j].stack_top) == boot_layout()[j],
            alloc.wf(),
            alloc.regions@ == all,
            all == regions@,
            0 <= i <= NUM_COMPARTMENTS,
            ({
                let (rest, ok) = creation_actions(all, alloc.current as int, i as nat);
                creation_actions(all, 0, 0) == (actions@ + rest, ok)
            }),
        decreases NUM_COMPARTMENTS - i,
    {
        let ghost before = actions@;
        let ghost cur = alloc.current as int;
        proof {
            assert((configs@[i as int].cnode_size_bits, configs@[i as int].entry_point, configs@[i as int].stack_top) == boot_layout()[i as int]);
            assert(configs@[i as int].cnode_size_bits < usize::BITS);
        }
        let ok = create_compartment(&mut alloc, i, &configs[i], &mut actions);
        if !ok {
            proof {
                let (acts, end, done) = compartment_actions(all, cur, i, configs@[i as int].cnode_size_bits, configs@[i as int].entry_point, configs@[i as int].stack_top);
                assert(creation_actions(all, cur, i as nat) == (acts, false));
            }
            return BootScript { actions, outcome: Err(RootTaskError::InsufficientMemory), remaining_start: alloc.current };
        }
        proof {
            let (acts, end, done) = compartment_actions(all, cur, i, configs@[i as int].cnode_size_bits, configs@[i as int].entry_point, configs@[i as int].stack_top);
            let (rest, ok2) = creation_actions(all, end, (i + 1) as nat);
            assert(creation_actions(all, cur, i as nat) == (acts + rest, ok2));
            assert(before + (acts + rest) =~= actions@ + rest);
        }
        i = i + 1;
    }
    let ghost created = actions@;
    let mut j: usize = 0;
    while j < NUM_COMPARTMENTS
        invariant
            0 <= j <= NUM_COMPARTMENTS,
            actions@ == created + resume_all().take(j as int),
        decreases NUM_COMPARTMENTS - j,
    {
        actions.push(KernelAction::Resume { compartment: j });
        assert(resume_all().take(j + 1) =~= resume_all().take(j as int).push(KernelAction::Resume { compartment: j }));
        j = j + 1;
    }
    assert(resume_all().take(NUM_COMPARTMENTS as int) =~= resume_all());
    BootScript { actions, outcome: Ok(()), remaining_start: alloc.current }
}

/// The deletes that clean up after the first `count` actions: each object
/// their retypes made, newest first.
pub fn cleanup_after(actions: &Vec<KernelAction>, count: usize) -> (cleanup: Vec<KernelAction>)
    requires
        count <= actions@.len(),
    ensures
        cleanup@ == cleanup_for(actions@.take(count as int)),
{
    let mut cleanup: Vec<KernelAction> = Vec::new();
    let mut j: usize = count;
    while j > 0
        invariant
            j <= count <= actions@.len(),
            cleanup@ + cleanup_for(actions@.take(j as int)) == cleanup_for(actions@.take(count as int)),
        decreases j,
    {
        let ghost before = cleanup@;
        proof {
            assert(actions@.take(j as int).drop_last() =~= actions@.take(j - 1));
            assert(actions@.take(j as int).last() == actions@[j - 1]);
        }
        match actions[j - 1] {
            KernelAction::Retype { compartment, object, .. } => {
                cleanup.push(KernelAction::Delete { compartment, object });
                assert(cleanup@ + cleanup_for(actions@.take(j - 1)) =~= before + cleanup_for(actions@.take(j as int)));
            },
            _ => {
                assert(cleanup@ + cleanup_for(actions@.take(j - 1)) =~= before + cleanup_for(actions@.take(j as int)));
            },
        }
        j = j - 1;
    }
    assert(cleanup@ + Seq::<KernelAction>::empty() =~= cleanup@);
    cleanup
}

/// The error a failed action gives.
pub fn failure_error(action: &KernelAction) -> (e: RootTaskError)
    ensures
        e == action_error(*action),
{
    match action {
        KernelAction::Retype { object: CompartmentObject::Endpoint, .. } => RootTaskError::EndpointCreationFailed,
        KernelAction::Retype { .. } => RootTaskError::CapabilityCreationFailed,
        KernelAction::SendInit { .. } => RootTaskError::MessageSendFailed,
        _ => RootTaskError::ThreadConfigurationFailed,
    }
}

/// Where the boot stands once every action of the script has succeeded:
/// finished, or failed with the script's error after cleaning up all of it.
pub open spec fn script_end(actions: Seq<KernelAction>, outcome: Result<(), RootTaskError>, step: BootStep) -> bool {
    match outcome {
        Ok(_) => step is Finished,
        Err(e) => step matches BootStep::Failed { cleanup, error } && cleanup@ == cleanup_for(actions) && error == e,
    }
}

impl BootScript {
    /// What the root task does first.
    pub fn first_step(&self) -> (step: BootStep)
        ensures
            self.actions@.len() > 0 ==> step == BootStep::Next(0),
            self.actions@.len() == 0 ==> script_end(self.actions@, self.outcome, step),
    {
        if self.actions.len() > 0 {
            BootStep::Next(0)
        } else {
            self.end_step()
        }
    }

    fn end_step(&self) -> (step: BootStep)
        ensures
            script_end(self.actions@, self.outcome, step),
    {
        assert(self.actions@.take(self.actions@.len() as int) =~= self.actions@);
        match &self.outcome {
            Ok(_) => BootStep::Finished,
            Err(e) => BootStep::Failed { cleanup: cleanup_after(&self.actions, self.actions.len()), error: *e },
        }
    }

    /// What the root task does after performing action `index`: on a
    /// failure that counts, clean up what was created so far and stop with
    /// the action's error; otherwise go on with the next action, or end as
    /// the script says once none is left.
    pub fn after_action(&self, index: usize, succeeded: bool) -> (step: BootStep)
        requires
            index < self.actions@.len(),
        ensures
            !succeeded && checked(self.actions@[index as int]) ==> (step matches BootStep::Failed { cleanup, error }
                && cleanup@ == cleanup_for(self.actions@.take(index as int))
                && error == action_error(self.actions@[index as int])),
            !succeeded && self.actions@[index as int] is Retype ==> (step matches BootStep::Failed { cleanup, error }
                && cleanup@ == cleanup_for(self.actions@.take(index as int))
                && error == (if self.actions@[index as int]->Retype_object == CompartmentObject::Endpoint {
                    RootTaskError::EndpointCreationFailed
                } else {
                    RootTaskError::CapabilityCreationFailed
                })),
            (succeeded || !checked(self.actions@[index as int])) && index + 1 < self.actions@.len() ==> step
                == BootStep::Next((index + 1) as usize),
            (succeeded || !checked(self.actions@[index as int])) && index + 1 == self.actions@.len() ==> script_end(
                self.actions@,
                self.outcome,
                step,
            ),
    {
        let action = &self.actions[index];
        let counts = match action {
            KernelAction::DeleteUntyped { .. } => false,
            KernelAction::Delete { .. } => false,
            _ => true,
        };
        if !succeeded && counts {
            BootStep::Failed { cleanup: cleanup_after(&self.actions, index), error: failure_error(action) }
        } else if index < self.actions.len() - 1 {
            BootStep::Next(index + 1)
        } else {
            self.end_step()
        }
    }
}
} // verus!

verus! {

/// The regions a list of plans uses, in order.
pub open spec fn plan_regions(plans: Seq<CompartmentPlan>) -> Seq<int>
    decreases plans.len(),
{
    if plans.len() == 0 {
        Seq::empty()
    } else {
        let p = plans[0];
        seq![p.cnode_region as int, p.vspace_region as int, p.tcb_region as int, p.endpoint_region as int]
            + plan_regions(plans.drop_first())
    }
}

/// All of `s` lies in `[lo, hi)` and strictly increases.
pub open spec fn increasing_within(s: Seq<int>, lo: int, hi: int) -> bool {
    &&& forall|i: int| 0 <= i < s.len() ==> lo <= #[trigger] s[i] < hi
    &&& forall|i: int, j: int| 0 <= i < j < s.len() ==> #[trigger] s[i] < #[trigger] s[j]
}

proof fn lemma_take_region(regions: Seq<UntypedRegion>, current: int, bits: nat)
    requires
        0 <= current <= regions.len(),
    ensures
        take_region(regions, current, bits).1 matches Some(k) ==> current <= k < regions.len()
            && usable(regions[k], bits) && take_region(regions, current, bits).0 == k + 1,
        take_region(regions, current, bits).1 is None ==> take_region(regions, current, bits).0 == regions.len(),
        current <= take_region(regions, current, bits).0 <= regions.len(),
    decreases regions.len() - current,
{
    if current < regions.len() && !usable(regions[current], bits) {
        lemma_take_region(regions, current + 1, bits);
    }
}

proof fn lemma_plan_one(regions: Seq<UntypedRegion>, current: int, cnode_bits: nat)
    requires
        0 <= current <= regions.len(),
        regions.len() <= usize::MAX,
    ensures
        current <= plan_one(regions, current, cnode_bits).0 <= regions.len(),
        plan_one(regions, current, cnode_bits).1 matches Some(p) ==> {
            &&& increasing_within(plan_regions(seq![p]), current, plan_one(regions, current, cnode_bits).0)
            &&& usable(regions[p.cnode_region as int], cnode_bits)
            &&& usable(regions[p.vspace_region as int], VSPACE_SIZE_BITS as nat)
            &&& usable(regions[p.tcb_region as int], TCB_SIZE_BITS as nat)
            &&& usable(regions[p.endpoint_region as int], ENDPOINT_SIZE_BITS as nat)
        },
{
    let (c1, a) = take_region(regions, current, cnode_bits);
    lemma_take_region(regions, current, cnode_bits);
    let (c2, b) = take_region(regions, c1, VSPACE_SIZE_BITS as nat);
    lemma_take_region(regions, c1, VSPACE_SIZE_BITS as nat);
    let (c3, c) = take_region(regions, c2, TCB_SIZE_BITS as nat);
    lemma_take_region(regions, c2, TCB_SIZE_BITS as nat);
    let (c4, d) = take_region(regions, c3, ENDPOINT_SIZE_BITS as nat);
    lemma_take_region(regions, c3, ENDPOINT_SIZE_BITS as nat);
    if let Some(p) = plan_one(regions, current, cnode_bits).1 {
        let s = plan_regions(seq![p]);
        assert(seq![p].drop_first() =~= Seq::<CompartmentPlan>::empty());
        assert(plan_regions(Seq::<CompartmentPlan>::empty()) =~= Seq::<int>::empty());
        assert(s =~= seq![a->0, b->0, c->0, d->0]);
    }
}

/// The boot plan never uses a region twice: the regions backing all
/// planned objects are distinct (strictly increasing), every one of them
/// is large enough and not device memory, and the regions left for the
/// broker start after the last one used.
pub proof fn lemma_plan_all_regions(regions: Seq<UntypedRegion>, current: int, cnode_bits: Seq<usize>)
    requires
        0 <= current <= regions.len(),
        regions.len() <= usize::MAX,
    ensures
        ({
            let (plans, end, ok) = plan_all(regions, current, cnode_bits);
            &&& current <= end <= regions.len()
            &&& increasing_within(plan_regions(plans), current, end)
            &&& plans.len() <= cnode_bits.len()
            &&& (ok ==> plans.len() == cnode_bits.len())
            &&& forall|i: int| 0 <= i < plans.len() ==> {
                &&& usable(regions[#[trigger] plans[i].cnode_region as int], cnode_bits[i] as nat)
                &&& usable(regions[plans[i].vspace_region as int], VSPACE_SIZE_BITS as nat)
                &&& usable(regions[plans[i].tcb_region as int], TCB_SIZE_BITS as nat)
                &&& usable(regions[plans[i].endpoint_region as int], ENDPOINT_SIZE_BITS as nat)
            }
        }),
    decreases cnode_bits.len(),
{
    if cnode_bits.len() > 0 {
        let (c1, p) = plan_one(regions, current, cnode_bits[0] as nat);
        lemma_plan_one(regions, current, cnode_bits[0] as nat);
        if let Some(plan) = p {
            lemma_plan_all_regions(regions, c1, cnode_bits.drop_first());
            let (rest, c2, ok) = plan_all(regions, c1, cnode_bits.drop_first());
            let all = seq![plan] + rest;
            assert(all.drop_first() =~= rest);
            let head = plan_regions(seq![plan]);
            assert(seq![plan].drop_first() =~= Seq::<CompartmentPlan>::empty());
            assert(plan_regions(Seq::<CompartmentPlan>::empty()) =~= Seq::<int>::empty());
            let four = seq![plan.cnode_region as int, plan.vspace_region as int, plan.tcb_region as int, plan.endpoint_region as int];
            assert(head =~= four);
            assert(all[0] == plan);
            assert(plan_regions(all) == four + plan_regions(all.drop_first()));
            assert(plan_regions(all) =~= head + plan_regions(rest));
            let s = plan_regions(all);
            assert forall|i: int, j: int| 0 <= i < j < s.len() implies #[trigger] s[i] < #[trigger] s[j] by {
                if j < 4 {
                    assert(s[i] == head[i] && s[j] == head[j]);
                } else if i < 4 {
                    assert(s[i] == head[i]);
                    assert(s[j] == plan_regions(rest)[j - 4]);
                } else {
                    assert(s[i] == plan_regions(rest)[i - 4]);
                    assert(s[j] == plan_regions(rest)[j - 4]);
                }
            }
            assert forall|i: int| 0 <= i < s.len() implies current <= #[trigger] s[i] < c2 by {
                if i < 4 {
                    assert(s[i] == head[i]);
                } else {
                    assert(s[i] == plan_regions(rest)[i - 4]);
                }
            }
            assert forall|i: int| 0 <= i < all.len() implies {
                &&& usable(regions[#[trigger] all[i].cnode_region as int], cnode_bits[i] as nat)
                &&& usable(regions[all[i].vspace_region as int], VSPACE_SIZE_BITS as nat)
                &&& usable(regions[all[i].tcb_region as int], TCB_SIZE_BITS as nat)
                &&& usable(regions[all[i].endpoint_region as int], ENDPOINT_SIZE_BITS as nat)
            } by {
                if i > 0 {
                    assert(all[i] == rest[i - 1]);
                    assert(cnode_bits[i] == cnode_bits.drop_first()[i - 1]);
                }
            }
        } else {
            assert(plan_regions(Seq::<CompartmentPlan>::empty()) =~= Seq::<int>::empty());
        }
    } else {
        assert(plan_regions(Seq::<CompartmentPlan>::empty()) =~= Seq::<int>::empty());
    }
}

} // verus!

verus! {

/// The compartment, object and size of each retype among `actions`.
pub open spec fn retypes(actions: Seq<KernelAction>) -> Seq<(usize, CompartmentObject, usize)>
    decreases actions.len(),
{
    if actions.len() == 0 {
        Seq::empty()
    } else {
        (match actions[0] {
            KernelAction::Retype { compartment, object, size_bits, .. } => seq![(compartment, object, size_bits)],
            _ => Seq::empty(),
        }) + retypes(actions.drop_first())
    }
}

/// The compartment, entry point and stack top of each configure among
/// `actions`.
pub open spec fn configures(actions: Seq<KernelAction>) -> Seq<(usize, VirtAddr, VirtAddr)>
    decreases actions.len(),
{
    if actions.len() == 0 {
        Seq::empty()
    } else {
        (match actions[0] {
            KernelAction::Configure { compartment, entry_point, stack_top } => seq![(compartment, entry_point, stack_top)],
            _ => Seq::empty(),
        }) + configures(actions.drop_first())
    }
}

/// The compartments started among `actions`, in order.
pub open spec fn resumes(actions: Seq<KernelAction>) -> Seq<usize>
    decreases actions.len(),
{
    if actions.len() == 0 {
        Seq::empty()
    } else {
        (match actions[0] {
            KernelAction::Resume { compartment } => seq![compartment],
            _ => Seq::empty(),
        }) + resumes(actions.drop_first())
    }
}

/// Each object of a compartment, in creation order.
pub open spec fn object_order(j: int) -> CompartmentObject {
    if j == 0 {
        CompartmentObject::CNode
    } else if j == 1 {
        CompartmentObject::VSpace
    } else if j == 2 {
        CompartmentObject::Tcb
    } else {
        CompartmentObject::Endpoint
    }
}

/// The size (as a power of two) of object `j` of compartment `c`.
pub open spec fn object_bits(c: int, j: int) -> usize {
    if j == 0 {
        boot_layout()[c].0
    } else if j == 1 {
        VSPACE_SIZE_BITS
    } else if j == 2 {
        TCB_SIZE_BITS
    } else {
        ENDPOINT_SIZE_BITS
    }
}

/// The retypes of a complete boot: four per compartment, in creation order.
#[verifier::opaque]
pub open spec fn boot_retypes() -> Seq<(usize, CompartmentObject, usize)> {
    Seq::new(4 * NUM_COMPARTMENTS as nat, |g: int| ((g / 4) as usize, object_order(g % 4), object_bits(g / 4, g % 4)))
}

/// The thread configurations of a complete boot, in creation order.
pub open spec fn boot_configures() -> Seq<(usize, VirtAddr, VirtAddr)> {
    Seq::new(NUM_COMPARTMENTS as nat, |c: int| (c as usize, boot_layout()[c].1, boot_layout()[c].2))
}

/// Every non-device region is at least a page (4096 bytes): large enough
/// for any object of the boot.
pub open spec fn page_sized(regions: Seq<UntypedRegion>) -> bool {
    forall|i: int| 0 <= i < regions.len() && !(#[trigger] regions[i]).is_device ==> regions[i].size >= 4096
}

/// Number of non-device regions from index `i` on.
pub open spec fn free_regions_from(regions: Seq<UntypedRegion>, i: int) -> nat
    decreases regions.len() - i,
{
    if i < 0 || i >= regions.len() {
        0
    } else {
        (if regions[i].is_device { 0nat } else { 1nat }) + free_regions_from(regions, i + 1)
    }
}

proof fn lemma_collect_add(a: Seq<KernelAction>, b: Seq<KernelAction>)
    ensures
        retypes(a + b) == retypes(a) + retypes(b),
        configures(a + b) == configures(a) + configures(b),
        resumes(a + b) == resumes(a) + resumes(b),
    decreases a.len(),
{
    if a.len() == 0 {
        assert(a + b =~= b);
        assert(retypes(a) + retypes(b) =~= retypes(b));
        assert(configures(a) + configures(b) =~= configures(b));
        assert(resumes(a) + resumes(b) =~= resumes(b));
    } else {
        assert((a + b).drop_first() =~= a.drop_first() + b);
        assert((a + b)[0] == a[0]);
        lemma_collect_add(a.drop_first(), b);
        let r0 = match a[0] {
            KernelAction::Retype { compartment, object, size_bits, .. } => seq![(compartment, object, size_bits)],
            _ => Seq::empty(),
        };
        assert(r0 + (retypes(a.drop_first()) + retypes(b)) =~= (r0 + retypes(a.drop_first())) + retypes(b));
        let c0 = match a[0] {
            KernelAction::Configure { compartment, entry_point, stack_top } => seq![(compartment, entry_point, stack_top)],
            _ => Seq::empty(),
        };
        assert(c0 + (configures(a.drop_first()) + configures(b)) =~= (c0 + configures(a.drop_first())) + configures(b));
        let s0 = match a[0] {
            KernelAction::Resume { compartment } => seq![compartment],
            _ => Seq::empty(),
        };
        assert(s0 + (resumes(a.drop_first()) + resumes(b)) =~= (s0 + resumes(a.drop_first())) + resumes(b));
    }
}

proof fn lemma_collect_resumes(s: Seq<KernelAction>, from: int)
    requires
        0 <= from <= NUM_COMPARTMENTS,
        s == resume_all().skip(from),
    ensures
        retypes(s) == Seq::<(usize, CompartmentObject, usize)>::empty(),
        configures(s) == Seq::<(usize, VirtAddr, VirtAddr)>::empty(),
        resumes(s) == Seq::new((NUM_COMPARTMENTS - from) as nat, |c: int| (c + from) as usize),
    decreases s.len(),
{
    if s.len() > 0 {
        assert(s.drop_first() =~= resume_all().skip(from + 1));
        lemma_collect_resumes(s.drop_first(), from + 1);
        assert(retypes(s) =~= Seq::<(usize, CompartmentObject, usize)>::empty());
        assert(configures(s) =~= Seq::<(usize, VirtAddr, VirtAddr)>::empty());
        assert(resumes(s) =~= Seq::new((NUM_COMPARTMENTS - from) as nat, |c: int| (c + from) as usize));
    } else {
        assert(resumes(s) =~= Seq::new((NUM_COMPARTMENTS - from) as nat, |c: int| (c + from) as usize));
    }
}

proof fn lemma_take_page(regions: Seq<UntypedRegion>, current: int, bits: usize)
    requires
        page_sized(regions),
        0 <= current <= regions.len(),
        bits == 4 || bits == 9 || bits == 10 || bits == 11 || bits == 12,
    ensures
        ({
            let (next, found) = take_region(regions, current, bits as nat);
            &&& (found is Some) == (free_regions_from(regions, current) > 0)
            &&& current <= next <= regions.len()
            &&& found is Some ==> free_regions_from(regions, next) + 1 == free_regions_from(regions, current)
            &&& found is None ==> next == regions.len()
        }),
    decreases regions.len() - current,
{
    vstd::arithmetic::power2::lemma2_to64();
    if current < regions.len() {
        let r = regions[current];
        assert(usable(r, bits as nat) == !r.is_device);
        if r.is_device {
            lemma_take_page(regions, current + 1, bits);
        }
    }
}

proof fn lemma_collect_single(a: KernelAction)
    ensures
        retypes(seq![a]) == (match a {
            KernelAction::Retype { compartment, object, size_bits, .. } => seq![(compartment, object, size_bits)],
            _ => Seq::empty(),
        }),
        configures(seq![a]) == (match a {
            KernelAction::Configure { compartment, entry_point, stack_top } => seq![(compartment, entry_point, stack_top)],
            _ => Seq::empty(),
        }),
        resumes(seq![a]) == (match a {
            KernelAction::Resume { compartment } => seq![compartment],
            _ => Seq::empty(),
        }),
{
    assert(seq![a].drop_first() =~= Seq::<KernelAction>::empty());
    assert(seq![a][0] == a);
    assert(retypes(Seq::<KernelAction>::empty()) == Seq::<(usize, CompartmentObject, usize)>::empty());
    assert(configures(Seq::<KernelAction>::empty()) == Seq::<(usize, VirtAddr, VirtAddr)>::empty());
    assert(resumes(Seq::<KernelAction>::empty()) == Seq::<usize>::empty());
    let r: Seq<(usize, CompartmentObject, usize)> = match a {
        KernelAction::Retype { compartment, object, size_bits, .. } => seq![(compartment, object, size_bits)],
        _ => Seq::empty(),
    };
    assert(r + Seq::<(usize, CompartmentObject, usize)>::empty() =~= r);
    let k: Seq<(usize, VirtAddr, VirtAddr)> = match a {
        KernelAction::Configure { compartment, entry_point, stack_top } => seq![(compartment, entry_point, stack_top)],
        _ => Seq::empty(),
    };
    assert(k + Seq::<(usize, VirtAddr, VirtAddr)>::empty() =~= k);
    let m: Seq<usize> = match a {
        KernelAction::Resume { compartment } => seq![compartment],
        _ => Seq::empty(),
    };
    assert(m + Seq::<usize>::empty() =~= m);
}

proof fn lemma_step_collect(regions: Seq<UntypedRegion>, current: int, c: usize, o: CompartmentObject, bits: usize)
    ensures
        ({
            let (acts, next, found) = object_step(regions, current, c, o, bits);
            &&& retypes(acts) == (if found { seq![(c, o, bits)] } else { Seq::empty() })
            &&& configures(acts) == Seq::<(usize, VirtAddr, VirtAddr)>::empty()
            &&& resumes(acts) == Seq::<usize>::empty()
        }),
{
    let (acts, next, found) = object_step(regions, current, c, o, bits);
    if found {
        let k = take_region(regions, current, bits as nat).1->0;
        let r = KernelAction::Retype { compartment: c, object: o, region: k as usize, size_bits: bits };
        let d = KernelAction::DeleteUntyped { region: k as usize };
        assert(acts =~= seq![r] + seq![d]);
        lemma_collect_add(seq![r], seq![d]);
        lemma_collect_single(r);
        lemma_collect_single(d);
        assert(retypes(acts) =~= seq![(c, o, bits)]);
        assert(configures(acts) =~= Seq::<(usize, VirtAddr, VirtAddr)>::empty());
        assert(resumes(acts) =~= Seq::<usize>::empty());
    }
}

proof fn lemma_compartment_page(
    regions: Seq<UntypedRegion>,
    current: int,
    c: usize,
    bits: usize,
    entry: VirtAddr,
    stack: VirtAddr,
)
    requires
        page_sized(regions),
        0 <= current <= regions.len(),
        bits == 10 || bits == 11 || bits == 12,
    ensures
        ({
            let (acts, end, ok) = compartment_actions(regions, current, c, bits, entry, stack);
            let n = free_regions_from(regions, current);
            let four = seq![
                (c, CompartmentObject::CNode, bits),
                (c, CompartmentObject::VSpace, VSPACE_SIZE_BITS),
                (c, CompartmentObject::Tcb, TCB_SIZE_BITS),
                (c, CompartmentObject::Endpoint, ENDPOINT_SIZE_BITS),
            ];
            &&& ok == (n >= 4)
            &&& current <= end <= regions.len()
            &&& ok ==> free_regions_from(regions, end) + 4 == n
            &&& retypes(acts) == four.take(if n >= 4 { 4 } else { n as int })
            &&& configures(acts) == (if ok { seq![(c, entry, stack)] } else { Seq::empty() })
            &&& resumes(acts) == Seq::<usize>::empty()
        }),
{
    reveal(compartment_actions);
    let n = free_regions_from(regions, current);
    let (a1, c1, f1) = object_step(regions, current, c, CompartmentObject::CNode, bits);
    lemma_take_page(regions, current, bits);
    lemma_step_collect(regions, current, c, CompartmentObject::CNode, bits);
    let (a2, c2, f2) = object_step(regions, c1, c, CompartmentObject::VSpace, VSPACE_SIZE_BITS);
    lemma_take_page(regions, c1, VSPACE_SIZE_BITS);
    lemma_step_collect(regions, c1, c, CompartmentObject::VSpace, VSPACE_SIZE_BITS);
    let (a3, c3, f3) = object_step(regions, c2, c, CompartmentObject::Tcb, TCB_SIZE_BITS);
    lemma_take_page(regions, c2, TCB_SIZE_BITS);
    lemma_step_collect(regions, c2, c, CompartmentObject::Tcb, TCB_SIZE_BITS);
    let (a4, c4, f4) = object_step(regions, c3, c, CompartmentObject::Endpoint, ENDPOINT_SIZE_BITS);
    lemma_take_page(regions, c3, ENDPOINT_SIZE_BITS);
    lemma_step_collect(regions, c3, c, CompartmentObject::Endpoint, ENDPOINT_SIZE_BITS);
    let four = seq![
        (c, CompartmentObject::CNode, bits),
        (c, CompartmentObject::VSpace, VSPACE_SIZE_BITS),
        (c, CompartmentObject::Tcb, TCB_SIZE_BITS),
        (c, CompartmentObject::Endpoint, ENDPOINT_SIZE_BITS),
    ];
    lemma_collect_add(a1, a2);
    lemma_collect_add(a1 + a2, a3);
    lemma_collect_add(a1 + a2 + a3, a4);
    let (acts, end, ok) = compartment_actions(regions, current, c, bits, entry, stack);
    if !f1 {
        assert(retypes(acts) =~= four.take(0));
    } else if !f2 {
        assert(retypes(acts) =~= four.take(1));
    } else if !f3 {
        assert(retypes(acts) =~= four.take(2));
    } else if !f4 {
        assert(retypes(acts) =~= four.take(3));
    } else {
        let body = a1 + a2 + a3 + a4;
        let configure = seq![KernelAction::Configure { compartment: c, entry_point: entry, stack_top: stack }];
        let init = if c == 0 { seq![KernelAction::SendInit { compartment: 0 }] } else { Seq::<KernelAction>::empty() };
        lemma_collect_add(body, configure);
        lemma_collect_add(body + configure, init);
        lemma_collect_single(KernelAction::Configure { compartment: c, entry_point: entry, stack_top: stack });
        lemma_collect_single(KernelAction::SendInit { compartment: 0 });
        assert(retypes(init) =~= Seq::<(usize, CompartmentObject, usize)>::empty());
        assert(configures(init) =~= Seq::<(usize, VirtAddr, VirtAddr)>::empty());
        assert(resumes(init) =~= Seq::<usize>::empty());
        assert(retypes(acts) =~= four.take(4));
        assert(configures(acts) =~= seq![(c, entry, stack)]);
        assert(resumes(acts) =~= Seq::<usize>::empty());
    }
}

/// The four retypes of compartment `c` that has capability-space size `bits`.
pub open spec fn compartment_retypes(c: usize, bits: usize) -> Seq<(usize, CompartmentObject, usize)> {
    seq![
        (c, CompartmentObject::CNode, bits),
        (c, CompartmentObject::VSpace, VSPACE_SIZE_BITS),
        (c, CompartmentObject::Tcb, TCB_SIZE_BITS),
        (c, CompartmentObject::Endpoint, ENDPOINT_SIZE_BITS),
    ]
}

proof fn lemma_boot_block(i: int)
    requires
        0 <= i < NUM_COMPARTMENTS,
    ensures
        boot_retypes().len() == 4 * NUM_COMPARTMENTS,
        boot_retypes().subrange(4 * i, 4 * i + 4) == compartment_retypes(i as usize, boot_layout()[i].0),
        boot_layout()[i].0 == 10 || boot_layout()[i].0 == 11 || boot_layout()[i].0 == 12,
        boot_configures()[i] == (i as usize, boot_layout()[i].1, boot_layout()[i].2),
{
    reveal(boot_retypes);
    let four = compartment_retypes(i as usize, boot_layout()[i].0);
    assert forall|k: int| 0 <= k < 4 implies #[trigger] boot_retypes()[4 * i + k] == four[k] by {
        assert((4 * i + k) / 4 == i);
        assert((4 * i + k) % 4 == k);
    }
    assert(boot_retypes().subrange(4 * i, 4 * i + 4) =~= four);
}

proof fn lemma_boot_retypes_len()
    ensures
        boot_retypes().len() == 4 * NUM_COMPARTMENTS,
{
    reveal(boot_retypes);
}

proof fn lemma_creation_page(regions: Seq<UntypedRegion>, current: int, i: nat)
    requires
        page_sized(regions),
        0 <= current <= regions.len(),
        i <= NUM_COMPARTMENTS,
    ensures
        ({
            let (acts, ok) = creation_actions(regions, current, i);
            let n = free_regions_from(regions, current);
            let r = 4 * (NUM_COMPARTMENTS - i);
            let m = if n >= r { r } else { n as int };
            &&& ok == (n >= r)
            &&& retypes(acts) == boot_retypes().subrange(4 * (i as int), 4 * (i as int) + m)
            &&& configures(acts) == boot_configures().subrange(i as int, i + m / 4)
            &&& resumes(acts) == Seq::<usize>::empty()
        }),
    decreases NUM_COMPARTMENTS - i,
{
    let (acts, ok) = creation_actions(regions, current, i);
    let n = free_regions_from(regions, current);
    lemma_boot_retypes_len();
    if i >= NUM_COMPARTMENTS {
        assert(retypes(acts) =~= boot_retypes().subrange(4 * (i as int), 4 * (i as int)));
        assert(configures(acts) =~= boot_configures().subrange(i as int, i as int));
        assert(resumes(acts) =~= Seq::<usize>::empty());
    } else {
        let (bits, entry, stack) = boot_layout()[i as int];
        lemma_boot_block(i as int);
        lemma_compartment_page(regions, current, i as usize, bits, entry, stack);
        let (cacts, end, cok) = compartment_actions(regions, current, i as usize, bits, entry, stack);
        let four = compartment_retypes(i as usize, bits);
        if !cok {
            assert(four.take(n as int) =~= boot_retypes().subrange(4 * (i as int), 4 * (i as int) + 4).take(n as int));
            assert(retypes(acts) =~= boot_retypes().subrange(4 * (i as int), 4 * (i as int) + n));
            assert(configures(acts) =~= boot_configures().subrange(i as int, i as int));
        } else {
            lemma_creation_page(regions, end, i + 1);
            let (rest, all_ok) = creation_actions(regions, end, i + 1);
            lemma_collect_add(cacts, rest);
            let r = 4 * (NUM_COMPARTMENTS - i);
            let m = if n >= r { r } else { n as int };
            assert(boot_retypes().subrange(4 * (i as int), 4 * (i as int) + m) =~= boot_retypes().subrange(4 * (i as int), 4 * (i as int) + 4)
                + boot_retypes().subrange(4 * (i as int) + 4, 4 * (i as int) + m));
            assert(retypes(acts) =~= boot_retypes().subrange(4 * (i as int), 4 * (i as int) + m));
            assert(m / 4 == 1 + (m - 4) / 4);
            assert(configures(acts) =~= boot_configures().subrange(i as int, i + m / 4));
            assert(resumes(acts) =~= Seq::<usize>::empty());
        }
    }
}

/// The kernel calls of the boot, when every non-device region is at least
/// a page: it succeeds exactly when there are 28 such regions for the 28
/// objects; the objects are retyped in order, four per compartment, with
/// each compartment's capability-space size; each compartment whose four
/// objects could be made has its thread configured with its entry point
/// and stack top; and the seven threads are started, in creation order,
/// after every other call, and only when the boot succeeds.
pub proof fn lemma_boot_kernel_calls(regions: Seq<UntypedRegion>)
    requires
        page_sized(regions),
    ensures
        ({
            let (acts, outcome) = boot_actions(regions);
            let n = free_regions_from(regions, 0);
            let m = if n >= 4 * NUM_COMPARTMENTS { 4 * NUM_COMPARTMENTS as int } else { n as int };
            &&& (outcome is Ok) == (n >= 4 * NUM_COMPARTMENTS)
            &&& retypes(acts) == boot_retypes().take(m)
            &&& configures(acts) == boot_configures().take(m / 4)
            &&& outcome is Err ==> resumes(acts) == Seq::<usize>::empty()
            &&& outcome is Ok ==> {
                &&& acts.skip(acts.len() - NUM_COMPARTMENTS) == resume_all()
                &&& resumes(acts.take(acts.len() - NUM_COMPARTMENTS)) == Seq::<usize>::empty()
                &&& configures(acts.take(acts.len() - NUM_COMPARTMENTS)) == boot_configures()
            }
        }),
{
    lemma_creation_page(regions, 0, 0);
    let (created, ok) = creation_actions(regions, 0, 0);
    let (acts, outcome) = boot_actions(regions);
    let n = free_regions_from(regions, 0);
    assert(boot_retypes().subrange(0, if n >= 28 { 28 } else { n as int }) =~= boot_retypes().take(
        if n >= 28 { 28 } else { n as int },
    ));
    if ok {
        assert(resume_all().skip(0) =~= resume_all());
        lemma_collect_resumes(resume_all(), 0);
        lemma_collect_add(created, resume_all());
        assert(acts.take(acts.len() - NUM_COMPARTMENTS) =~= created);
        assert(acts.skip(acts.len() - NUM_COMPARTMENTS) =~= resume_all());
        assert(retypes(acts) =~= retypes(created));
        assert(configures(acts) =~= configures(created));
        assert(boot_configures().subrange(0, 7) =~= boot_configures());
        assert(boot_configures().subrange(0, 7) =~= boot_configures().take(7));
    } else {
        let m = if n >= 28 { 28 } else { n as int };
        assert(boot_configures().subrange(0, m / 4) =~= boot_configures().take(m / 4));
    }
}

/// Cleaning up after a failed boot deletes every object the calls made so
/// far created, and does nothing else: each of its actions is a delete, one
/// per retype.
pub proof fn lemma_cleanup_undoes_retypes(done: Seq<KernelAction>)
    ensures
        forall|j: int| 0 <= j < cleanup_for(done).len() ==> #[trigger] cleanup_for(done)[j] is Delete,
        forall|i: int| 0 <= i < done.len() && (#[trigger] done[i] is Retype) ==> cleanup_for(done).contains(
            KernelAction::Delete { compartment: done[i]->Retype_compartment, object: done[i]->Retype_object },
        ),
        cleanup_for(done).len() == retypes(done).len(),
    decreases done.len(),
{
    if done.len() > 0 {
        let front = done.drop_last();
        let last = done.last();
        lemma_cleanup_undoes_retypes(front);
        lemma_collect_add(front, seq![last]);
        lemma_collect_single(last);
        assert(front + seq![last] =~= done);
        let c = cleanup_for(done);
        assert(c == undo(last) + cleanup_for(front));
        assert forall|j: int| 0 <= j < c.len() implies #[trigger] c[j] is Delete by {
            if j >= undo(last).len() {
                assert(c[j] == cleanup_for(front)[j - undo(last).len()]);
            }
        }
        assert forall|i: int| 0 <= i < done.len() && (#[trigger] done[i] is Retype) implies c.contains(
            KernelAction::Delete { compartment: done[i]->Retype_compartment, object: done[i]->Retype_object },
        ) by {
            let d = KernelAction::Delete { compartment: done[i]->Retype_compartment, object: done[i]->Retype_object };
            if i == done.len() - 1 {
                assert(c[0] == d);
            } else {
                assert(done[i] == front[i]);
                let k = choose|k: int| 0 <= k < cleanup_for(front).len() && cleanup_for(front)[k] == d;
                assert(c[k + undo(last).len()] == d);
            }
        }
    }
}

/// Which failed kernel calls stop the boot, and with what error: a failed
/// retype of any object stops it, with `EndpointCreationFailed` for an
/// endpoint and `CapabilityCreationFailed` for every other object; a failed
/// thread configuration or start stops it with `ThreadConfigurationFailed`;
/// a failed boot message with `MessageSendFailed`. Only failed deletes are
/// let pass.
pub proof fn lemma_failed_calls_stop_boot(a: KernelAction)
    ensures
        a is Retype ==> checked(a),
        a is Retype && a->Retype_object == CompartmentObject::Endpoint ==> action_error(a)
            == RootTaskError::EndpointCreationFailed,
        a is Retype && a->Retype_object != CompartmentObject::Endpoint ==> action_error(a)
            == RootTaskError::CapabilityCreationFailed,
        a is Configure || a is Resume ==> checked(a) && action_error(a) == RootTaskError::ThreadConfigurationFailed,
        a is SendInit ==> checked(a) && action_error(a) == RootTaskError::MessageSendFailed,
        a is DeleteUntyped || a is Delete ==> !checked(a),
{
}

} // verus!
