use loop_os::message::{BrokerExchange, Message};
use loop_os::root_task::{
    boot_sequence, cleanup_after, cleanup_order, compartment_configs, create_compartment, plan_boot,
    send_broker_init_message, validate_boot_info, BootScript, BootStep, CompartmentObject, KernelAction,
    RegionAllocator, RootTaskError, UntypedRegion, VirtAddr,
};
use loop_os::shell::{DesktopShell, ShellError};

fn reply(words: Vec<u64>) -> BrokerExchange {
    BrokerExchange::Reply(Message::from_words(words).unwrap())
}

fn log_text(shell: &DesktopShell) -> String {
    String::from_utf8(shell.debug_log.contents()).unwrap()
}

#[test]
fn shell_initialization() {
    let mut shell = DesktopShell::new();
    assert_eq!(shell.compartment_id, "desktop_shell");
    assert_eq!(shell.initialize(Some(&Message::from_words(vec![1]).unwrap())), Ok(()));
    assert_eq!(
        log_text(&shell),
        "Desktop Shell initializing...\nReceived boot init message from root task\nDesktop Shell initialized successfully\n"
    );
    let mut shell = DesktopShell::new();
    assert_eq!(shell.initialize(Some(&Message::from_words(vec![3]).unwrap())), Err(ShellError::InitializationFailed));
    let mut shell = DesktopShell::new();
    assert_eq!(shell.initialize(None), Err(ShellError::BrokerCommunicationFailed));
}

#[test]
fn app_launch_request_codes() {
    let mut shell = DesktopShell::new();
    let m = shell.request_app_launch_capability("native", "hello_world").unwrap();
    assert_eq!(m.to_words(), vec![1, 1, 1, 1]);
    assert_eq!(
        log_text(&shell),
        "Requesting app launch capability\nUniverse: \nnative\nApp ID: \nhello_world\nSending request to broker\n1\n"
    );
    let m = shell.request_app_launch_capability("android", "browser").unwrap();
    assert_eq!(m.to_words(), vec![1, 4, 3, 1]);
    let m = shell.request_app_launch_capability("windows", "calculator").unwrap();
    assert_eq!(m.to_words(), vec![1, 3, 2, 1]);
    let m = shell.request_app_launch_capability("linux", "browser").unwrap();
    assert_eq!(m.to_words(), vec![1, 2, 3, 1]);
}

#[test]
fn app_launch_request_validation() {
    let mut shell = DesktopShell::new();
    assert_eq!(shell.request_app_launch_capability("", "hello_world").err(), Some(ShellError::InvalidAppId));
    assert_eq!(shell.request_app_launch_capability("native", "").err(), Some(ShellError::InvalidAppId));
    assert_eq!(shell.request_app_launch_capability("haiku", "hello_world").err(), Some(ShellError::InvalidUniverse));
    assert_eq!(shell.request_app_launch_capability("haiku", "unknown").err(), Some(ShellError::InvalidUniverse));
    assert_eq!(shell.request_app_launch_capability("native", "editor").err(), Some(ShellError::InvalidAppId));
}

#[test]
fn app_launch_response() {
    let mut shell = DesktopShell::new();
    let token = shell.complete_app_launch_request("native", "hello_world", &reply(vec![1, 9])).unwrap();
    assert_eq!(token.id, 9);
    assert_eq!(token.description, "App launch capability for hello_world in native");
    assert_eq!(token.compartment, "desktop_shell");
    assert!(!token.delegatable);
    assert_eq!(token.parent_id, 0);
    assert_eq!(
        log_text(&shell),
        "Request sent, waiting for response\nReceived response from broker\nSuccessfully created app launch capability\n"
    );
}

#[test]
fn app_launch_response_failures() {
    let mut shell = DesktopShell::new();
    assert_eq!(
        shell.complete_app_launch_request("native", "hello_world", &BrokerExchange::SendFailed).err(),
        Some(ShellError::BrokerCommunicationFailed)
    );
    assert_eq!(log_text(&shell), "");
    assert_eq!(
        shell.complete_app_launch_request("native", "hello_world", &BrokerExchange::ReceiveFailed).err(),
        Some(ShellError::BrokerCommunicationFailed)
    );
    assert_eq!(log_text(&shell), "Request sent, waiting for response\n");
    let mut shell = DesktopShell::new();
    assert_eq!(
        shell.complete_app_launch_request("native", "hello_world", &reply(vec![7, 1])).err(),
        Some(ShellError::CapabilityRequestFailed)
    );
}

#[test]
fn hello_world_launch_round() {
    let mut shell = DesktopShell::new();
    let m = shell.launch_hello_world_app().unwrap();
    assert_eq!(m.to_words(), vec![1, 1, 1, 1]);
    assert_eq!(shell.finish_hello_world_launch(&reply(vec![1, 12])), Ok(12));
    assert!(log_text(&shell).ends_with(
        "Received app launch capability token\nLaunching app via universe manager (placeholder)\n"
    ));
    assert!(log_text(&shell).starts_with("Requesting app launch capability for 'hello_world'\n"));
}

#[test]
fn launch_outcome_report() {
    let mut shell = DesktopShell::new();
    assert_eq!(shell.report_launch_outcome(Ok(12)), Ok(()));
    assert_eq!(shell.report_launch_outcome(Err(ShellError::InvalidUniverse)), Ok(()));
    assert_eq!(
        log_text(&shell),
        "Successfully launched app with token ID: \n12\nFailed to launch app: \n4\n"
    );
    assert_eq!(ShellError::DebugBufferFull.code(), 6);
}

#[test]
fn voice_command_classification() {
    let mut shell = DesktopShell::new();
    assert_eq!(shell.on_user_voice_command("hello there"), Ok(()));
    assert_eq!(shell.on_user_voice_command("launch the browser"), Ok(()));
    assert_eq!(shell.on_user_voice_command("what"), Ok(()));
    assert_eq!(
        log_text(&shell),
        "Aura voice command received: \nhello there\nDetected greeting command\n\
         Aura voice command received: \nlaunch the browser\nDetected launch command\n\
         Aura voice command received: \nwhat\nUnknown command\n"
    );
}

fn region(size: usize, is_device: bool) -> UntypedRegion {
    UntypedRegion { size, is_device }
}

#[test]
fn boot_info_needs_a_region() {
    assert_eq!(validate_boot_info(&[]), Err(RootTaskError::InvalidBootInfo));
    assert_eq!(validate_boot_info(&[region(16, false)]), Ok(()));
}

#[test]
fn get_untyped_is_first_fit_and_moves_on() {
    let mut alloc = RegionAllocator::new(vec![
        region(4096, true),
        region(256, false),
        region(4096, false),
        region(8192, false),
    ]);
    assert_eq!(alloc.get_untyped(12), Ok(2));
    assert_eq!(alloc.current, 3);
    // the small region before the cursor is never revisited
    assert_eq!(alloc.get_untyped(4), Ok(3));
    assert_eq!(alloc.get_untyped(4), Err(RootTaskError::InsufficientMemory));
    assert_eq!(alloc.current, 4);
}

#[test]
fn compartment_table() {
    let configs = compartment_configs();
    assert_eq!(configs.len(), 7);
    assert_eq!(configs[0].name, "cap_broker");
    assert_eq!(configs[0].entry_point, VirtAddr(0x400000));
    assert_eq!(configs[0].cnode_size_bits, 12);
    assert_eq!(configs[2].name, "driver_vm");
    assert!(configs[2].needs_irq_control);
    assert_eq!(configs[2].cnode_size_bits, 11);
    assert_eq!(configs[6].name, "android_universe_mgr");
    assert_eq!(configs[6].stack_top, VirtAddr(0x1100000));
}

#[test]
fn boot_plan_with_enough_memory() {
    let mut regions = vec![region(4096, false); 28];
    regions.push(region(1 << 20, false));
    let plan = plan_boot(regions);
    assert_eq!(plan.outcome, Ok(()));
    assert_eq!(plan.compartments.len(), 7);
    assert_eq!(plan.compartments[0].cnode_region, 0);
    assert_eq!(plan.compartments[0].endpoint_region, 3);
    assert_eq!(plan.compartments[6].endpoint_region, 27);
    assert_eq!(plan.remaining_start, 28);
}

#[test]
fn boot_plan_skips_unusable_regions() {
    let mut regions = vec![region(1024, false), region(1 << 20, true)];
    regions.extend(vec![region(4096, false); 28]);
    let plan = plan_boot(regions);
    assert_eq!(plan.outcome, Ok(()));
    // the broker's 4096-byte capability space cannot come from the 1024-byte region
    assert_eq!(plan.compartments[0].cnode_region, 2);
    assert_eq!(plan.remaining_start, 30);
}

#[test]
fn boot_plan_runs_out_of_memory() {
    let plan = plan_boot(vec![region(4096, false); 10]);
    assert_eq!(plan.outcome, Err(RootTaskError::InsufficientMemory));
    assert_eq!(plan.compartments.len(), 2);
    assert_eq!(plan.remaining_start, 10);
}

#[test]
fn init_message_and_cleanup() {
    assert_eq!(send_broker_init_message().unwrap().to_words(), vec![1]);
    assert_eq!(
        cleanup_order(false),
        vec![CompartmentObject::Endpoint, CompartmentObject::Tcb, CompartmentObject::VSpace, CompartmentObject::CNode]
    );
    assert_eq!(cleanup_order(true).len(), 5);
    assert_eq!(cleanup_order(true)[3], CompartmentObject::IrqControl);
}

fn count(script: &BootScript, f: impl Fn(&KernelAction) -> bool) -> usize {
    script.actions.iter().filter(|a| f(a)).count()
}

fn is_retype(a: &KernelAction) -> bool {
    matches!(a, KernelAction::Retype { .. })
}

fn is_configure(a: &KernelAction) -> bool {
    matches!(a, KernelAction::Configure { .. })
}

fn is_resume(a: &KernelAction) -> bool {
    matches!(a, KernelAction::Resume { .. })
}

/// Runs the script against a kernel that fails the action at `fail_at`
/// (if any): the actions performed, and how the boot ended.
fn run(script: &BootScript, fail_at: Option<usize>) -> (Vec<KernelAction>, Result<(), RootTaskError>) {
    let mut performed = Vec::new();
    let mut step = script.first_step();
    loop {
        match step {
            BootStep::Next(i) => {
                performed.push(script.actions[i]);
                step = script.after_action(i, fail_at != Some(i));
            },
            BootStep::Failed { cleanup, error } => {
                performed.extend(cleanup);
                return (performed, Err(error));
            },
            BootStep::Finished => return (performed, Ok(())),
        }
    }
}

#[test]
fn boot_sequence_with_enough_memory() {
    let mut regions = vec![region(1 << 20, true)];
    regions.extend(vec![region(4096, false); 30]);
    let script = boot_sequence(regions);
    assert_eq!(script.outcome, Ok(()));
    assert_eq!(count(&script, is_retype), 28);
    assert_eq!(count(&script, is_configure), 7);
    assert_eq!(count(&script, |a| matches!(a, KernelAction::DeleteUntyped { .. })), 28);
    assert_eq!(count(&script, |a| matches!(a, KernelAction::SendInit { .. })), 1);
    // all seven threads are started last, in creation order
    let n = script.actions.len();
    let resumes: Vec<KernelAction> = (0..7).map(|c| KernelAction::Resume { compartment: c }).collect();
    assert_eq!(&script.actions[n - 7..], &resumes[..]);
    assert_eq!(count(&script, is_resume), 7);
    assert_eq!(script.remaining_start, 29);
    let (performed, outcome) = run(&script, None);
    assert_eq!(outcome, Ok(()));
    assert_eq!(performed, script.actions);
}

#[test]
fn boot_sequence_configures_each_thread() {
    let script = boot_sequence(vec![region(4096, false); 28]);
    let configures: Vec<(usize, usize)> = script
        .actions
        .iter()
        .filter_map(|a| match a {
            KernelAction::Configure { entry_point, stack_top, .. } => Some((entry_point.0, stack_top.0)),
            _ => None,
        })
        .collect();
    assert_eq!(
        configures,
        vec![
            (0x400000, 0x500000),
            (0x600000, 0x700000),
            (0x800000, 0x900000),
            (0xA00000, 0xB00000),
            (0xC00000, 0xD00000),
            (0xE00000, 0xF00000),
            (0x1000000, 0x1100000),
        ]
    );
    let cnode_bits: Vec<usize> = script
        .actions
        .iter()
        .filter_map(|a| match a {
            KernelAction::Retype { object: CompartmentObject::CNode, size_bits, .. } => Some(*size_bits),
            _ => None,
        })
        .collect();
    assert_eq!(cnode_bits, vec![12, 10, 11, 10, 10, 10, 10]);
}

#[test]
fn boot_sequence_broker_first_then_init_message() {
    let script = boot_sequence(vec![region(4096, false); 28]);
    let expected = vec![
        KernelAction::Retype { compartment: 0, object: CompartmentObject::CNode, region: 0, size_bits: 12 },
        KernelAction::DeleteUntyped { region: 0 },
        KernelAction::Retype { compartment: 0, object: CompartmentObject::VSpace, region: 1, size_bits: 12 },
        KernelAction::DeleteUntyped { region: 1 },
        KernelAction::Retype { compartment: 0, object: CompartmentObject::Tcb, region: 2, size_bits: 9 },
        KernelAction::DeleteUntyped { region: 2 },
        KernelAction::Retype { compartment: 0, object: CompartmentObject::Endpoint, region: 3, size_bits: 4 },
        KernelAction::DeleteUntyped { region: 3 },
        KernelAction::Configure { compartment: 0, entry_point: VirtAddr(0x400000), stack_top: VirtAddr(0x500000) },
        KernelAction::SendInit { compartment: 0 },
        KernelAction::Retype { compartment: 1, object: CompartmentObject::CNode, region: 4, size_bits: 10 },
    ];
    assert_eq!(&script.actions[..11], &expected[..]);
}

#[test]
fn boot_sequence_runs_out_of_memory() {
    for k in [0usize, 1, 3, 4, 5, 10, 27] {
        let mut regions = vec![region(1 << 20, true); 2];
        regions.extend(vec![region(4096, false); k]);
        let script = boot_sequence(regions);
        assert_eq!(script.outcome, Err(RootTaskError::InsufficientMemory));
        assert_eq!(count(&script, is_retype), k);
        assert_eq!(count(&script, is_configure), k / 4);
        assert_eq!(count(&script, is_resume), 0);
        let (performed, outcome) = run(&script, None);
        assert_eq!(outcome, Err(RootTaskError::InsufficientMemory));
        // every object created is deleted again, newest first
        let deletes: Vec<KernelAction> = performed[script.actions.len()..].to_vec();
        assert_eq!(deletes.len(), k);
        assert_eq!(deletes, cleanup_after(&script.actions, script.actions.len()));
    }
}

#[test]
fn failed_kernel_call_maps_to_error_and_cleans_up() {
    let script = boot_sequence(vec![region(4096, false); 28]);
    // the shell's capability space is the fifth retype, action 10
    let (performed, outcome) = run(&script, Some(10));
    assert_eq!(outcome, Err(RootTaskError::CapabilityCreationFailed));
    assert_eq!(
        &performed[11..],
        &[
            KernelAction::Delete { compartment: 0, object: CompartmentObject::Endpoint },
            KernelAction::Delete { compartment: 0, object: CompartmentObject::Tcb },
            KernelAction::Delete { compartment: 0, object: CompartmentObject::VSpace },
            KernelAction::Delete { compartment: 0, object: CompartmentObject::CNode },
        ][..]
    );
    // a failed endpoint
    let (_, outcome) = run(&script, Some(6));
    assert_eq!(outcome, Err(RootTaskError::EndpointCreationFailed));
    // a failed configure
    let (performed, outcome) = run(&script, Some(8));
    assert_eq!(outcome, Err(RootTaskError::ThreadConfigurationFailed));
    assert_eq!(performed.len(), 9 + 4);
    // the boot message
    let (_, outcome) = run(&script, Some(9));
    assert_eq!(outcome, Err(RootTaskError::MessageSendFailed));
    // a failed resume
    let n = script.actions.len();
    let (performed, outcome) = run(&script, Some(n - 1));
    assert_eq!(outcome, Err(RootTaskError::ThreadConfigurationFailed));
    assert_eq!(performed.len(), n + 28);
    // a failed untyped delete is not checked
    let (_, outcome) = run(&script, Some(1));
    assert_eq!(outcome, Ok(()));
}

#[test]
fn create_compartment_records_four_retypes_and_configure() {
    let mut alloc = RegionAllocator::new(vec![region(4096, false); 5]);
    let configs = compartment_configs();
    let mut actions = Vec::new();
    assert!(create_compartment(&mut alloc, 3, &configs[3], &mut actions));
    assert_eq!(actions.len(), 9);
    assert_eq!(actions[0], KernelAction::Retype { compartment: 3, object: CompartmentObject::CNode, region: 0, size_bits: 10 });
    assert_eq!(actions[6], KernelAction::Retype { compartment: 3, object: CompartmentObject::Endpoint, region: 3, size_bits: 4 });
    assert_eq!(
        actions[8],
        KernelAction::Configure { compartment: 3, entry_point: VirtAddr(0xA00000), stack_top: VirtAddr(0xB00000) }
    );
    assert_eq!(alloc.current, 4);
    // one region left: only the capability space can be created
    let mut more = Vec::new();
    assert!(!create_compartment(&mut alloc, 4, &configs[4], &mut more));
    assert_eq!(more.len(), 2);
}
