use pyfmu_wrapper::backend::{
    fill_output, BackendError, InstanceRecord, InterpreterBackend,
};
use pyfmu_wrapper::config::SlaveConfiguration;
use pyfmu_wrapper::protocol::{encode_command, frame_message, Command, Fmi2ValueKind, Fmi2Values};
use pyfmu_wrapper::resources::locate_descriptor;
use pyfmu_wrapper::status::Fmi2Status;

fn record(handle: i32, base_port: u16) -> InstanceRecord {
    InstanceRecord {
        handle,
        process_id: 4000 + handle as u64,
        command_port: base_port,
        logging_port: base_port + 1,
    }
}

#[test]
fn instantiation_commits_a_record() {
    let mut backend = InterpreterBackend::new(b"python3".to_vec());
    let h = backend.get_free_handle();
    assert_eq!(h, 0);
    assert_eq!(backend.commit_instance(record(h, 54200)), Ok(()));
    let rec = backend.lookup_instance(h).unwrap();
    assert_eq!(rec.handle, 0);
    assert_eq!(rec.command_port, 54200);
    assert_eq!(rec.logging_port, 54201);
    assert_eq!(backend.instance_count(), 1);
}

#[test]
fn commit_rejects_bad_records() {
    let mut backend = InterpreterBackend::new(b"python3".to_vec());
    let h = backend.get_free_handle();
    assert_eq!(
        backend.commit_instance(record(5, 54200)),
        Err(BackendError::HandleNotAllocated)
    );
    assert_eq!(backend.commit_instance(record(h, 54200)), Ok(()));
    assert_eq!(
        backend.commit_instance(record(h, 54300)),
        Err(BackendError::DuplicateRecord)
    );
    let h2 = backend.get_free_handle();
    // Any overlap with a live endpoint is refused.
    assert_eq!(
        backend.commit_instance(record(h2, 54201)),
        Err(BackendError::EndpointInUse)
    );
    // So is a record whose own two endpoints coincide.
    assert_eq!(
        backend.commit_instance(InstanceRecord {
            handle: h2,
            process_id: 1,
            command_port: 60000,
            logging_port: 60000,
        }),
        Err(BackendError::EndpointInUse)
    );
    assert_eq!(backend.commit_instance(record(h2, 54300)), Ok(()));
}

#[test]
fn freed_instance_frees_its_handle() {
    let mut backend = InterpreterBackend::new(b"python3".to_vec());
    let h0 = backend.get_free_handle();
    backend.commit_instance(record(h0, 54200)).unwrap();
    let h1 = backend.get_free_handle();
    backend.commit_instance(record(h1, 54300)).unwrap();

    let freed = backend.free_instance(h0).unwrap();
    assert_eq!(freed.handle, h0);
    assert_eq!(freed.process_id, 4000);
    assert!(backend.lookup_instance(h0).is_none());
    // The other instance is untouched.
    assert_eq!(backend.lookup_instance(h1).unwrap().command_port, 54300);
    // The freed handle is legal to hand out again, as a fresh instance.
    assert_eq!(backend.get_free_handle(), h0);
    // Freeing a dead handle yields nothing.
    assert!(backend.free_instance(17).is_none());
}

#[test]
fn ten_instances_are_isolated_and_torn_down() {
    let mut backend = InterpreterBackend::new(b"python3".to_vec());
    for k in 0..10u16 {
        let h = backend.get_free_handle();
        assert_eq!(h, k as i32);
        assert_eq!(backend.commit_instance(record(h, 50000 + 2 * k)), Ok(()));
    }
    assert_eq!(backend.instance_count(), 10);
    // Every instance answers with its own record.
    for k in 0..10i32 {
        let rec = backend.lookup_instance(k).unwrap();
        assert_eq!(rec.handle, k);
        assert_eq!(rec.command_port, 50000 + 2 * k as u16);
    }
    // Teardown hands every record back for process termination.
    let orphan_candidates = backend.teardown();
    assert_eq!(orphan_candidates.len(), 10);
    for (k, rec) in orphan_candidates.iter().enumerate() {
        assert_eq!(rec.handle, k as i32);
    }
    assert_eq!(backend.instance_count(), 0);
    assert!(backend.lookup_instance(0).is_none());
    // Nothing is allocated afterwards either.
    assert_eq!(backend.get_free_handle(), 0);
}

#[test]
fn failed_instantiation_leaves_no_entry() {
    let mut backend = InterpreterBackend::new(b"nosuch-interpreter".to_vec());
    let h0 = backend.get_free_handle();
    backend.commit_instance(record(h0, 54200)).unwrap();
    // The spawn (or the handshake) failed: the allocation is aborted.
    let h = backend.get_free_handle();
    backend.abort_instantiation(h);
    assert_eq!(backend.instance_count(), 1);
    assert!(backend.lookup_instance(h).is_none());
    // The registry gained no entry: the handle comes back unchanged.
    assert_eq!(backend.get_free_handle(), h);
}

#[test]
fn planned_commands_are_the_framed_encodings() {
    let mut backend = InterpreterBackend::new(b"python3".to_vec());
    let h = backend.get_free_handle();
    backend.commit_instance(record(h, 54200)).unwrap();

    let bits = |x: f64| f64::to_bits(x);
    let planned = backend.do_step(h, bits(0.0), bits(10.0), false).unwrap();
    let expected = frame_message(&encode_command(&Command::DoStep {
        current_time: bits(0.0),
        step_size: bits(10.0),
        no_set_state_prior: false,
    }));
    assert_eq!(planned, expected);

    let planned = backend
        .set_values(
            h,
            vec![0, 1],
            Fmi2Values::Real(vec![bits(10.0), bits(20.0)]),
        )
        .unwrap();
    let expected = frame_message(&encode_command(&Command::SetValues {
        references: vec![0, 1],
        values: Fmi2Values::Real(vec![bits(10.0), bits(20.0)]),
    }));
    assert_eq!(planned, expected);

    let planned = backend
        .get_values(h, Fmi2ValueKind::Real, vec![0, 1])
        .unwrap();
    let expected = frame_message(&encode_command(&Command::GetValues {
        kind: Fmi2ValueKind::Real,
        references: vec![0, 1],
    }));
    assert_eq!(planned, expected);

    let planned = backend
        .setup_experiment(h, bits(0.0), None, Some(bits(1.0)))
        .unwrap();
    let expected = frame_message(&encode_command(&Command::SetupExperiment {
        start_time: bits(0.0),
        tolerance: None,
        stop_time: Some(bits(1.0)),
    }));
    assert_eq!(planned, expected);

    let planned = backend
        .set_debug_logging(h, vec![b"logAll".to_vec()], true)
        .unwrap();
    let expected = frame_message(&encode_command(&Command::SetDebugLogging {
        categories: vec![b"logAll".to_vec()],
        logging_on: true,
    }));
    assert_eq!(planned, expected);

    assert!(backend.enter_initialization_mode(h).is_ok());
    assert!(backend.exit_initialization_mode(h).is_ok());
    assert!(backend.terminate(h).is_ok());
    assert!(backend.reset(h).is_ok());
    assert!(backend.free_instance_request(h).is_ok());
}

#[test]
fn commands_for_dead_handles_are_refused() {
    let backend = InterpreterBackend::new(b"python3".to_vec());
    assert_eq!(
        backend.do_step(0, 0, 0, false),
        Err(BackendError::UnknownHandle)
    );
    assert_eq!(
        backend.get_values(3, Fmi2ValueKind::Real, vec![0]),
        Err(BackendError::UnknownHandle)
    );
    assert_eq!(
        backend.free_instance_request(1),
        Err(BackendError::UnknownHandle)
    );
}

#[test]
fn output_buffers_keep_their_sentinels_on_severe_status() {
    // The buffer is pre-filled with sentinels; an induced Discard or Error
    // must leave it untouched.
    let sentinel = vec![f64::to_bits(-1.0), f64::to_bits(-2.0)];
    let fresh = vec![f64::to_bits(10.0), f64::to_bits(20.0)];

    let mut buffer = sentinel.clone();
    let written = fill_output(&mut buffer, Fmi2Status::Fmi2Error, Some(fresh.clone()));
    assert!(!written);
    assert_eq!(buffer, sentinel);

    let mut buffer = sentinel.clone();
    let written = fill_output(&mut buffer, Fmi2Status::Fmi2Discard, None);
    assert!(!written);
    assert_eq!(buffer, sentinel);

    let mut buffer = sentinel.clone();
    let written = fill_output(&mut buffer, Fmi2Status::Fmi2OK, Some(fresh.clone()));
    assert!(written);
    assert_eq!(buffer, fresh);

    // A success with the wrong number of values writes nothing back.
    let mut buffer = sentinel.clone();
    let written = fill_output(
        &mut buffer,
        Fmi2Status::Fmi2OK,
        Some(vec![f64::to_bits(1.0)]),
    );
    assert!(!written);
    assert_eq!(buffer, sentinel);
}

#[test]
fn spawn_plan_matches_the_descriptor() {
    let backend = InterpreterBackend::new(b"python3".to_vec());
    let config = SlaveConfiguration {
        slave_script: b"adder.py".to_vec(),
        slave_class: b"Adder".to_vec(),
    };
    let args = backend.plan_spawn(
        &config,
        &b"/tmp/fmu/resources".to_vec(),
        &b"a".to_vec(),
        54200,
        54201,
        54202,
    );
    let expected: Vec<Vec<u8>> = vec![
        b"python3".to_vec(),
        b"slave_process.py".to_vec(),
        b"--slave-script".to_vec(),
        b"/tmp/fmu/resources/adder.py".to_vec(),
        b"--slave-class".to_vec(),
        b"Adder".to_vec(),
        b"--instance-name".to_vec(),
        b"a".to_vec(),
        b"--handshake-port".to_vec(),
        b"54200".to_vec(),
        b"--command-port".to_vec(),
        b"54201".to_vec(),
        b"--logging-port".to_vec(),
        b"54202".to_vec(),
    ];
    assert_eq!(args, expected);
}

#[test]
fn resource_location_resolves_to_the_descriptor() {
    let (dir, path) = locate_descriptor("file:///tmp/fmu/resources").unwrap();
    assert_eq!(dir, b"/tmp/fmu/resources".to_vec());
    assert_eq!(path, b"/tmp/fmu/resources/slave_configuration.json".to_vec());
    // A location that is no file URI resolves to nothing.
    assert!(locate_descriptor("not a uri").is_none());
    assert!(locate_descriptor("http://example.com/resources").is_none());
}
