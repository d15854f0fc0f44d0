use interprocess::local_socket::LocalSocketListener;
use pagi_core::{InitStep, IpcError, IpcLifecycle, PAGICoreModel, StorageError, PAGI_IPC_NAME};

fn bind(name: &str) -> Result<LocalSocketListener, String> {
    LocalSocketListener::bind(name).map_err(|cause| cause.to_string())
}

#[test]
fn a_new_core_has_not_touched_the_channel() {
    let mut core = PAGICoreModel::new();
    assert_eq!(core.ipc_name(), "/tmp/pagi_shmem_pipe");
    assert_eq!(core.ipc_name(), PAGI_IPC_NAME);
    assert_eq!(core.begin_ipc_init(), InitStep::Bind);
    assert!(core.take_ipc_listener().is_none());
    assert_eq!(core.teardown(Ok(())).expect("the flush went well"), None);
}

#[test]
fn a_failed_bind_is_reported_and_changes_nothing() {
    let mut core = PAGICoreModel::new();
    let error = core
        .init_ipc_server(Err("address in use".to_string()))
        .expect_err("the bind failed");
    assert_eq!(error.name, "/tmp/pagi_shmem_pipe");
    assert_eq!(error.cause, "address in use");
    assert_eq!(error.message(), "Failed to bind IPC server (/tmp/pagi_shmem_pipe): address in use");
    assert_eq!(core.begin_ipc_init(), InitStep::Bind);
    assert!(core.take_ipc_listener().is_none());
    assert_eq!(core.teardown(Ok(())).expect("the flush went well"), None);
    assert_eq!(core.apply_rules_to_facts(Vec::new()).len(), 0);
}

#[test]
fn a_core_can_be_made_for_another_channel() {
    let mut core = PAGICoreModel::on_channel("pagi_shmem_pipe", Vec::new());
    assert_eq!(core.ipc_name(), "pagi_shmem_pipe");
    assert!(core.rules().is_empty());
    let error = core.init_ipc_server(Err("denied".to_string())).expect_err("the bind failed");
    assert_eq!(error.message(), "Failed to bind IPC server (pagi_shmem_pipe): denied");
    let listener = bind("@pagi_core_test_other_channel");
    assert!(listener.is_ok(), "binding a fresh name: {:?}", listener.as_ref().err());
    assert!(core.init_ipc_server(listener).is_ok());
    assert_eq!(core.ipc_name(), "pagi_shmem_pipe");
    assert_eq!(core.teardown(Ok(())).expect("the flush went well"), Some("pagi_shmem_pipe".to_string()));
}

#[test]
fn a_failed_flush_stops_the_teardown() {
    let mut core = PAGICoreModel::new();
    let error = core.teardown(Err("disk full".to_string())).expect_err("the flush failed");
    assert_eq!(error.cause, "disk full");
    assert_eq!(error.message(), "KB write failed: disk full");
    let error = StorageError { cause: "io".to_string() };
    assert_eq!(error.message(), "KB write failed: io");
    let error = IpcError { name: "n".to_string(), cause: "c".to_string() };
    assert_eq!(error.message(), "Failed to bind IPC server (n): c");
}

#[test]
fn init_twice_binds_once_and_hands_out_one_listener() {
    let mut core = PAGICoreModel::new();
    assert_eq!(core.begin_ipc_init(), InitStep::Bind);
    let first = bind("@pagi_core_test_init_twice_a");
    assert!(first.is_ok(), "binding a fresh name: {:?}", first.as_ref().err());
    assert!(core.init_ipc_server(first).is_ok());
    assert_eq!(core.begin_ipc_init(), InitStep::AlreadyBound);
    assert!(core.init_ipc_server(Err("never tried".to_string())).is_ok());
    assert_eq!(core.begin_ipc_init(), InitStep::AlreadyBound);
    assert_eq!(core.ipc_name(), "/tmp/pagi_shmem_pipe");
    assert!(core.take_ipc_listener().is_some());
    assert!(core.take_ipc_listener().is_none());
    assert_eq!(core.begin_ipc_init(), InitStep::Bind);
    assert_eq!(
        core.teardown(Ok(())).expect("the flush went well"),
        Some("/tmp/pagi_shmem_pipe".to_string())
    );
    assert_eq!(core.teardown(Ok(())).expect("the flush went well"), None);
}

#[test]
fn a_second_listener_is_dropped_while_one_is_held() {
    let mut ipc = IpcLifecycle::new("somewhere");
    assert_eq!(ipc.name(), "somewhere");
    assert!(!ipc.is_initialized());
    let first = bind("@pagi_core_test_second_listener_a");
    assert!(first.is_ok(), "binding a fresh name: {:?}", first.as_ref().err());
    assert!(ipc.complete_init(first).is_ok());
    assert!(ipc.is_initialized());
    assert_eq!(ipc.name(), "somewhere");
    let second = bind("@pagi_core_test_second_listener_b");
    assert!(second.is_ok(), "binding a fresh name: {:?}", second.as_ref().err());
    assert!(ipc.complete_init(second).is_ok());
    assert_eq!(ipc.begin_init(), InitStep::AlreadyBound);
    // The second listener was dropped, so its name is free again.
    let again = bind("@pagi_core_test_second_listener_b");
    assert!(again.is_ok(), "the name of a dropped listener is free: {:?}", again.as_ref().err());
    assert!(ipc.take_listener().is_some());
    assert!(ipc.take_listener().is_none());
    assert!(ipc.is_initialized());
    assert_eq!(ipc.teardown(Ok(())).expect("the flush went well"), Some("somewhere".to_string()));
    assert!(!ipc.is_initialized());
}

#[test]
fn teardown_releases_a_listener_that_is_still_held() {
    let mut core = PAGICoreModel::new();
    let listener = bind("@pagi_core_test_teardown_release");
    assert!(listener.is_ok(), "binding a fresh name: {:?}", listener.as_ref().err());
    assert!(core.init_ipc_server(listener).is_ok());
    assert!(core.teardown(Err("disk full".to_string())).is_err());
    assert_eq!(core.begin_ipc_init(), InitStep::AlreadyBound);
    assert_eq!(
        core.teardown(Ok(())).expect("the flush went well"),
        Some("/tmp/pagi_shmem_pipe".to_string())
    );
    assert!(core.take_ipc_listener().is_none());
    let again = bind("@pagi_core_test_teardown_release");
    assert!(again.is_ok(), "the name of a released listener is free: {:?}", again.as_ref().err());
}
