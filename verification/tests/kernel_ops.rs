use kiacha_kernel::ipc::{IpcMessage, Mailbox};
use kiacha_kernel::kernel::{KernelError, KiachaKernel, ModuleStatus, ModuleType};
use kiacha_kernel::permissions::{Permission, PermissionManager};

const RUN_SEVEN: &[u8] = b"(module (func (export \"run\") (result i32) i32.const 7))";
const RUN_TRAP: &[u8] = b"(module (func (export \"run\") (result i32) unreachable))";
const NO_ENTRY: &[u8] = b"(module)";

fn fresh_kernel() -> KiachaKernel {
    KiachaKernel::new(PermissionManager::new(), 16)
}

#[test]
fn send_to_unspawned_module_not_found() {
    let mut kernel = fresh_kernel();
    let sender = kernel.spawn("alice".to_string(), ModuleType::Brain);
    kernel.grant(&sender, Permission::SendIpc);
    let msg = IpcMessage::new(sender.clone(), "ghost".to_string(), "hi".to_string());
    let r = kernel.ipc_send(&sender, "ghost", msg);
    assert!(matches!(r, Err(KernelError::ModuleNotFound)));
}

#[test]
fn send_without_capability_denied() {
    let mut kernel = fresh_kernel();
    let sender = kernel.spawn("alice".to_string(), ModuleType::Brain);
    let receiver = kernel.spawn("bob".to_string(), ModuleType::Memory);
    let msg = IpcMessage::new(sender.clone(), receiver.clone(), "hi".to_string());
    let r = kernel.ipc_send(&sender, &receiver, msg);
    match r {
        Err(KernelError::PermissionDenied { module, permission }) => {
            assert_eq!(module, sender);
            assert!(matches!(permission, Permission::SendIpc));
        }
        other => panic!("expected a permission denial, got {:?}", other),
    }
}

#[test]
fn delivered_send_is_ok() {
    let mut kernel = fresh_kernel();
    let sender = kernel.spawn("alice".to_string(), ModuleType::Brain);
    let receiver = kernel.spawn("bob".to_string(), ModuleType::Memory);
    kernel.grant(&sender, Permission::SendIpc);
    let msg = IpcMessage::new(sender.clone(), receiver.clone(), "hi".to_string());
    assert!(kernel.ipc_send(&sender, &receiver, msg).is_ok());
}

#[test]
fn full_mailbox_reports_backpressure() {
    let mut kernel = KiachaKernel::new(PermissionManager::new(), 1);
    let sender = kernel.spawn("alice".to_string(), ModuleType::Brain);
    let receiver = kernel.spawn("bob".to_string(), ModuleType::Memory);
    kernel.grant(&sender, Permission::SendIpc);
    let m1 = IpcMessage::new(sender.clone(), receiver.clone(), "one".to_string());
    let m2 = IpcMessage::new(sender.clone(), receiver.clone(), "two".to_string());
    assert!(kernel.ipc_send(&sender, &receiver, m1).is_ok());
    let r = kernel.ipc_send(&sender, &receiver, m2);
    assert!(matches!(r, Err(KernelError::MailboxFull)));
}

#[test]
fn fresh_module_is_default_denied() {
    let mut kernel = fresh_kernel();
    let id = kernel.spawn("worker".to_string(), ModuleType::Custom("w".to_string()));
    assert!(!kernel.check_permission(&id, Permission::RunSandbox));
    let r = kernel.run_wasm(&id, RUN_SEVEN, vec![]);
    match r {
        Err(KernelError::PermissionDenied { module, permission }) => {
            assert_eq!(module, id);
            assert!(matches!(permission, Permission::RunSandbox));
        }
        other => panic!("expected a permission denial, got {:?}", other),
    }
}

#[test]
fn grant_enables_and_revoke_disables_sandbox() {
    let mut kernel = fresh_kernel();
    let id = kernel.spawn("worker".to_string(), ModuleType::Reasoning);

    kernel.grant(&id, Permission::RunSandbox);
    assert!(kernel.check_permission(&id, Permission::RunSandbox));
    let ok = kernel.run_wasm(&id, RUN_SEVEN, vec![]).expect("granted run succeeds");
    assert_eq!(ok, "WASM result: 7");

    kernel.revoke(&id, Permission::RunSandbox);
    assert!(!kernel.check_permission(&id, Permission::RunSandbox));
    let r = kernel.run_wasm(&id, RUN_SEVEN, vec![]);
    assert!(matches!(r, Err(KernelError::PermissionDenied { .. })));
}

#[test]
fn sandbox_reports_compile_and_trap_errors() {
    let mut kernel = fresh_kernel();
    let id = kernel.spawn("worker".to_string(), ModuleType::Reasoning);
    kernel.grant(&id, Permission::RunSandbox);

    let r = kernel.run_wasm(&id, b"this is not wasm at all (", vec![]);
    assert!(matches!(r, Err(KernelError::SandboxCompileError { .. })));

    let r = kernel.run_wasm(&id, RUN_TRAP, vec![]);
    assert!(matches!(r, Err(KernelError::SandboxTrapError { .. })));

    let r = kernel.run_wasm(&id, NO_ENTRY, vec![]).expect("a unit with no entry succeeds");
    assert_eq!(r, "WASM executed without explicit result");
}

#[test]
fn pause_then_resume_leaves_running() {
    let mut kernel = fresh_kernel();
    let id = kernel.spawn("worker".to_string(), ModuleType::Vision);
    kernel.pause_module(&id).expect("pause");
    let paused = kernel.list_modules();
    assert_eq!(paused[0].status, ModuleStatus::Paused);
    kernel.resume_module(&id).expect("resume");
    let resumed = kernel.list_modules();
    assert_eq!(resumed[0].status, ModuleStatus::Running);
}

#[test]
fn pause_unknown_module_not_found() {
    let mut kernel = fresh_kernel();
    assert!(matches!(kernel.pause_module("ghost"), Err(KernelError::ModuleNotFound)));
    assert!(matches!(kernel.resume_module("ghost"), Err(KernelError::ModuleNotFound)));
}

#[test]
fn spawned_ids_are_distinct() {
    let mut kernel = fresh_kernel();
    let mut ids: Vec<String> = Vec::new();
    for n in 0..10 {
        ids.push(kernel.spawn(format!("m{}", n), ModuleType::Audio));
    }
    for i in 0..ids.len() {
        assert_eq!(ids[i].len(), 36, "hyphenated UUID length");
        for j in 0..i {
            assert_ne!(ids[i], ids[j]);
        }
    }
    assert_eq!(kernel.list_modules().len(), 10);
}

#[test]
fn audit_log_grows_and_keeps_entries() {
    let mut kernel = fresh_kernel();
    let mut previous = kernel.get_audit_logs();
    assert_eq!(previous.len(), 1);
    assert!(previous[0].contains("kernel_started: kernel initialized"));
    assert!(previous[0].starts_with('['));

    let id = kernel.spawn("worker".to_string(), ModuleType::Brain);
    kernel.grant(&id, Permission::SendIpc);
    kernel.pause_module(&id).expect("pause");
    kernel.resume_module(&id).expect("resume");
    let msg = IpcMessage::new(id.clone(), "ghost".to_string(), "hi".to_string());
    let _ = kernel.ipc_send(&id, "ghost", msg);

    let logs = kernel.get_audit_logs();
    assert!(logs.len() >= previous.len());
    for (i, line) in previous.iter().enumerate() {
        assert_eq!(&logs[i], line, "an old entry must stay in place");
    }
    previous = logs;

    kernel.grant(&id, Permission::RunSandbox);
    kernel.run_wasm(&id, NO_ENTRY, vec![]).expect("run");
    let logs = kernel.get_audit_logs();
    assert!(logs.len() >= previous.len());
    for (i, line) in previous.iter().enumerate() {
        assert_eq!(&logs[i], line);
    }
    assert!(logs.last().unwrap().contains("sandbox_run"));
}

#[test]
fn audit_records_spawn_kind_and_name() {
    let mut kernel = fresh_kernel();
    kernel.spawn("core-brain".to_string(), ModuleType::Brain);
    kernel.spawn("plug".to_string(), ModuleType::Custom("ext".to_string()));
    let logs = kernel.get_audit_logs();
    assert!(logs[1].contains("module_spawn:brain: core-brain"));
    assert!(logs[2].contains("module_spawn:custom:ext: plug"));
}

#[test]
fn scenario_full_kernel_walk() {
    let mut bootstrap = PermissionManager::new();
    bootstrap.grant("brain", Permission::SendIpc);
    bootstrap.grant("brain", Permission::RunSandbox);
    let mut kernel = KiachaKernel::new(bootstrap, 16);

    let id1 = kernel.spawn("brain".to_string(), ModuleType::Brain);
    let listed = kernel.list_modules();
    assert_eq!(listed.len(), 1);
    assert_eq!(listed[0].id, id1);
    assert_eq!(listed[0].name, "brain");
    assert_eq!(listed[0].status, ModuleStatus::Running);

    // The id is fresh, so the name-keyed bootstrap grant does not apply.
    kernel.grant(&id1, Permission::SendIpc);
    let msg = IpcMessage::new(id1.clone(), "ghost".to_string(), "ping".to_string());
    let r = kernel.ipc_send(&id1, "ghost", msg);
    assert!(matches!(r, Err(KernelError::ModuleNotFound)));

    kernel.grant(&id1, Permission::RunSandbox);
    let out = kernel.run_wasm(&id1, RUN_SEVEN, vec![]).expect("valid code unit");
    assert!(out.contains('7'));

    let snap = kernel.get_resources();
    let expected = if snap.memory_total_bytes == 0 {
        0
    } else if snap.memory_used_bytes <= snap.memory_total_bytes {
        ((snap.memory_used_bytes as u128) * 100 / (snap.memory_total_bytes as u128)) as u64
    } else {
        100
    };
    assert_eq!(snap.memory_used_pct, expected);
    assert!(snap.memory_used_pct <= 100);
    assert!(snap.memory_total_bytes > 0);
}

#[test]
fn permission_manager_round_trip() {
    let mut pm = PermissionManager::new();
    assert!(!pm.check("m", Permission::Admin));
    pm.grant("m", Permission::Admin);
    pm.grant("m", Permission::Admin);
    assert!(pm.check("m", Permission::Admin));
    assert!(!pm.check("m", Permission::SystemCall));
    pm.revoke("m", Permission::Admin);
    assert!(!pm.check("m", Permission::Admin));
    pm.revoke("m", Permission::Admin);
    assert!(!pm.check("m", Permission::Admin));
}

#[test]
fn mailbox_is_fifo_and_bounded() {
    let mut mb = Mailbox::new("owner".to_string(), 2);
    assert_eq!(mb.len(), 0);
    assert!(mb.dequeue().is_none());
    let m1 = IpcMessage::new("a".to_string(), "owner".to_string(), "first".to_string());
    let m2 = IpcMessage::new("a".to_string(), "owner".to_string(), "second".to_string());
    let m3 = IpcMessage::new("a".to_string(), "owner".to_string(), "third".to_string());
    assert!(mb.enqueue(m1));
    assert!(mb.enqueue(m2));
    assert!(!mb.enqueue(m3), "a full mailbox refuses, it never drops");
    assert_eq!(mb.len(), 2);
    assert_eq!(mb.dequeue().unwrap().payload, "first");
    assert_eq!(mb.dequeue().unwrap().payload, "second");
    assert!(mb.dequeue().is_none());
}

#[test]
fn ipc_message_carries_fields() {
    let m = IpcMessage::new("from".to_string(), "to".to_string(), "payload".to_string());
    assert_eq!(m.from, "from");
    assert_eq!(m.to, "to");
    assert_eq!(m.payload, "payload");
}
