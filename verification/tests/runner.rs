use std::time::Instant;

use qsoripper::catalog::{adversarial_adif_payloads, adversarial_strings, mapper_field_cases};
use qsoripper::ledger::{HarnessState, OperationRate, ProcessMetrics, RunConfiguration};
use qsoripper::preview::{preview_bytes, preview_string};
use qsoripper::stress::{
    distribute_workers, endpoint_to_listen_argument, final_status_message, GrpcVectorKind,
    StressLogLevel, StressRunState, StressVectorState,
};

#[test]
fn distribute_workers_spreads_parallelism_across_vectors() {
    let counts = distribute_workers(11, 4);
    assert_eq!(vec![3, 3, 3, 2], counts);
}

#[test]
fn endpoint_to_listen_argument_strips_scheme_and_trailing_slash() {
    let listen = match endpoint_to_listen_argument("http://127.0.0.1:50051/") {
        Ok(listen) => listen,
        Err(error) => panic!("listen argument should parse: {error}"),
    };
    assert_eq!("127.0.0.1:50051", listen);
}

#[test]
fn shared_harness_starts_in_idle_state() {
    let harness = HarnessState::new();
    let snapshot = harness.snapshot();
    assert_eq!(StressRunState::Idle, snapshot.state);
    assert_eq!("Idle", snapshot.status_message);
}

#[test]
fn record_error_counts_failed_attempt_as_operation() {
    let mut state = HarnessState::new();
    state.register_vector("grpc-deleteqso-garbage", "DeleteQso Garbage");
    state.record_error(
        "grpc-deleteqso-garbage",
        "NaN".to_string(),
        "invalid request".to_string(),
        false,
    );
    assert_eq!(1, state.snapshot().total_operations);
    assert_eq!(1, state.snapshot().error_count);
    let vector = state
        .vector_status("grpc-deleteqso-garbage")
        .unwrap_or_else(|| panic!("grpc-deleteqso-garbage vector should exist"));
    assert_eq!(1, vector.total_operations);
    assert_eq!(1, vector.error_count);
    assert_eq!(Some("NaN".to_string()), vector.last_sample_input);
}

#[test]
fn distribute_workers_handles_empty_inputs_and_hands_out_every_worker() {
    assert_eq!(distribute_workers(0, 3), vec![0, 0, 0]);
    assert_eq!(distribute_workers(5, 0), Vec::<usize>::new());
    let counts = distribute_workers(23, 10);
    assert_eq!(counts.iter().sum::<usize>(), 23);
    assert_eq!(counts, vec![3, 3, 3, 2, 2, 2, 2, 2, 2, 2]);
}

#[test]
fn endpoint_to_listen_argument_other_forms() {
    assert_eq!(endpoint_to_listen_argument("  https://host:1//  ").unwrap(), "host:1");
    assert_eq!(endpoint_to_listen_argument("host:2/").unwrap(), "host:2/");
    assert_eq!(endpoint_to_listen_argument("http:///").unwrap(), "http:///");
    assert_eq!(endpoint_to_listen_argument("   ").unwrap(), "   ");
    assert_eq!(endpoint_to_listen_argument("").unwrap_err(), "Engine endpoint is empty.");
}

#[test]
fn final_messages_by_state() {
    assert_eq!(final_status_message(StressRunState::Completed), "Stress run completed.");
    assert_eq!(final_status_message(StressRunState::Failed), "Stress run failed.");
    assert_eq!(final_status_message(StressRunState::Stopped), "Stress run stopped.");
    assert_eq!(final_status_message(StressRunState::Running), "Stress run stopped.");
}

#[test]
fn vector_kinds_by_id() {
    assert_eq!(GrpcVectorKind::from_id("grpc-importadif-garbage"), GrpcVectorKind::ImportAdifGarbage);
    assert_eq!(GrpcVectorKind::from_id("grpc-logqso-missing"), GrpcVectorKind::LogQsoMissingFields);
    assert_eq!(GrpcVectorKind::from_id("anything else"), GrpcVectorKind::ExportAdifChaos);
}

#[test]
fn unknown_vectors_only_count_on_the_run() {
    let mut state = HarnessState::new();
    state.record_operation("nobody", "x".to_string());
    assert_eq!(state.snapshot().total_operations, 1);
    assert!(state.vector_status("nobody").is_none());
}

#[test]
fn failed_vectors_stay_failed_on_later_attempts() {
    let mut state = HarnessState::new();
    state.register_vector("b", "B");
    state.register_vector("a", "A");
    state.set_vector_state("a", StressVectorState::Failed);
    state.record_attempt("a", "one".to_string());
    state.record_attempt("b", "two".to_string());
    assert_eq!(state.vector_status("a").unwrap().state, StressVectorState::Failed);
    assert_eq!(state.vector_status("b").unwrap().state, StressVectorState::Running);
    state.record_error("a", "three".to_string(), "boom".to_string(), true);
    let a = state.vector_status("a").unwrap();
    assert_eq!((a.total_operations, a.error_count, a.internal_error_count), (2, 1, 1));
    assert_eq!(a.last_error_message.as_deref(), Some("boom"));
    assert_eq!(state.snapshot().internal_error_count, 1);
}

#[test]
fn publish_lists_vectors_in_id_order_with_rates() {
    let mut state = HarnessState::new();
    state.register_vector("zeta", "Z");
    state.register_vector("alpha", "A");
    state.record_operation("alpha", "s".to_string());
    state.record_operation("alpha", "s".to_string());
    state.record_operation("zeta", "s".to_string());
    let snapshot = state.publish_after(Instant::now(), 2_000_000_000);
    let ids: Vec<&str> = snapshot.vector_statuses.iter().map(|v| v.vector_id.as_str()).collect();
    assert_eq!(ids, vec!["alpha", "zeta"]);
    assert_eq!(snapshot.operations_rate, OperationRate { operations: 3, elapsed_nanos: 2_000_000_000 });
    assert_eq!(
        snapshot.vector_statuses[0].operations_rate,
        OperationRate { operations: 2, elapsed_nanos: 2_000_000_000 }
    );
    state.record_operation("zeta", "s".to_string());
    let next = state.publish_after(Instant::now(), 1_000);
    assert_eq!(next.operations_rate, OperationRate { operations: 1, elapsed_nanos: 1_000 });
    assert_eq!(next.vector_statuses[0].operations_rate.operations, 0);
    assert_eq!(next.vector_statuses[1].operations_rate.operations, 1);
    let same = state.publish_after(Instant::now(), 0);
    assert_eq!(same.operations_rate, next.operations_rate);
    assert!(state.publish_snapshot().vector_statuses.len() == 2);
}

#[test]
fn event_log_keeps_the_most_recent_entries() {
    let mut state = HarnessState::new();
    let configuration = RunConfiguration {
        include_core_vectors: false,
        include_grpc_vectors: false,
        auto_start_engine: false,
        engine_endpoint: "http://127.0.0.1:50051".to_string(),
        grpc_parallelism: 1,
        metrics_interval_ms: 1000,
        duration_seconds: 0,
        recent_event_limit: 2,
    };
    state.reset_run("quick", &configuration);
    assert_eq!(state.snapshot().state, StressRunState::Starting);
    assert_eq!(state.snapshot().status_message, "Starting stress run.");
    let run_id = state.snapshot().run_id.clone();
    assert_eq!(run_id.len(), 36);
    for (i, c) in run_id.chars().enumerate() {
        if [8, 13, 18, 23].contains(&i) {
            assert_eq!(c, '-');
        } else {
            assert!(c.is_ascii_digit() || ('a'..='f').contains(&c));
        }
    }
    assert_eq!(run_id.chars().nth(14), Some('4'));
    assert!(matches!(run_id.chars().nth(19), Some('8' | '9' | 'a' | 'b')));
    state.push_event(StressLogLevel::Info, "one".to_string(), None);
    state.push_event(StressLogLevel::Warning, "two".to_string(), Some("v"));
    state.push_event(StressLogLevel::Error, "three".to_string(), None);
    let snapshot = state.publish_after(Instant::now(), 0);
    let messages: Vec<&str> = snapshot.recent_events.iter().map(|e| e.message.as_str()).collect();
    assert_eq!(messages, vec!["two", "three"]);
    assert_eq!(snapshot.recent_events[0].vector_id.as_deref(), Some("v"));
}

#[test]
fn reset_run_with_zero_limit_keeps_fifty_events() {
    let mut state = HarnessState::new();
    let configuration = RunConfiguration {
        include_core_vectors: true,
        include_grpc_vectors: true,
        auto_start_engine: false,
        engine_endpoint: String::new(),
        grpc_parallelism: 4,
        metrics_interval_ms: 500,
        duration_seconds: 10,
        recent_event_limit: 0,
    };
    state.reset_run("full", &configuration);
    for k in 0..60 {
        state.push_event(StressLogLevel::Info, format!("e{k}"), None);
    }
    let snapshot = state.publish_after(Instant::now(), 0);
    assert_eq!(snapshot.recent_events.len(), 50);
    assert_eq!(snapshot.recent_events[0].message, "e10");
    assert_eq!(snapshot.active_profile_name, "full");
}

#[test]
fn terminal_states_stamp_the_end_time() {
    let mut state = HarnessState::new();
    state.set_state(StressRunState::Running, "Stress run active.".to_string());
    assert!(state.snapshot().ended_at_utc.is_none());
    state.set_state(StressRunState::Completed, "done".to_string());
    assert!(state.snapshot().ended_at_utc.is_some());
}

#[test]
fn process_samples_are_kept_by_name() {
    let mut state = HarnessState::new();
    let metrics = |name: &str, ws: u64| ProcessMetrics {
        process_name: name.to_string(),
        process_id: Some(7),
        cpu_usage_percent_bits: 12.5f64.to_bits(),
        working_set_bytes: ws,
        virtual_memory_bytes: 2 * ws,
    };
    state.update_process("server", metrics("server", 10));
    state.update_process("harness", metrics("harness", 20));
    state.update_process("server", metrics("server", 30));
    let snapshot = state.publish_after(Instant::now(), 0);
    let sizes: Vec<(String, u64)> =
        snapshot.processes.iter().map(|p| (p.process_name.clone(), p.working_set_bytes)).collect();
    assert_eq!(sizes, vec![("harness".to_string(), 20), ("server".to_string(), 30)]);
}

#[test]
fn previews_escape_and_cut_at_eighty_bytes() {
    assert_eq!(preview_string("a\0b\nc"), "a\\0b\\nc");
    let long = "X".repeat(2048);
    assert_eq!(preview_string(&long), format!("{}...", "X".repeat(80)));
    let umlauts = "\u{00FC}".repeat(512);
    assert_eq!(preview_string(&umlauts), format!("{}...", "\u{00FC}".repeat(40)));
    let nuls = "\0".repeat(50);
    assert_eq!(preview_string(&nuls), format!("{}...", "\\0".repeat(40)));
    assert_eq!(preview_bytes(&[0xFF, 0xFF, 0xFF]), "3 bytes of binary ADIF input");
    assert_eq!(preview_bytes(b"<CALL:4>W1AW<eor>"), "<CALL:4>W1AW<eor>");
}

#[test]
fn catalogues_hold_their_inputs() {
    let strings = adversarial_strings();
    assert_eq!(strings.len(), 21);
    assert_eq!(strings[3], "\0\0\0\0\0\0\0\0");
    assert_eq!(strings[10], "X".repeat(2048));
    assert_eq!(strings[11], "\u{00FC}".repeat(512));
    assert_eq!(strings[14], "VE3/W1AW/QRP");
    let payloads = adversarial_adif_payloads();
    assert_eq!(payloads.len(), 9);
    assert_eq!(payloads[2], (0..=255).collect::<Vec<u8>>());
    assert_eq!(payloads[4], "<CALL:4>W1AW<QSO_DATE:8>202\u{00FC}123<TIME_ON:4>1200<BAND:3>20M<MODE:2>CW<STATION_CALLSIGN:4>TEST<eor>".as_bytes());
    assert_eq!(payloads[8], "<CALL:4>\u{1F4A9}<eor>".as_bytes());
    assert_eq!(payloads[7], vec![b'A'; 16_384]);
    let cases = mapper_field_cases();
    assert_eq!(cases.len(), 4);
    assert_eq!(cases[2].1[1], ("QSO_DATE".to_string(), "202\u{00FC}123".to_string()));
    assert_eq!(cases[3].1.len(), 5);
}

#[test]
fn vector_samples_preview_what_they_send() {
    assert_eq!(GrpcVectorKind::LogQsoAdversarial.sample(12), "QSO W1AW");
    assert_eq!(GrpcVectorKind::LogQsoMissingFields.sample(5), "default QsoRecord");
    assert_eq!(GrpcVectorKind::LookupAdversarial.sample(21 + 2), "\\0");
    assert_eq!(GrpcVectorKind::ImportAdifGarbage.sample(2), "256 bytes of binary ADIF input");
    assert_eq!(GrpcVectorKind::ImportAdifGarbage.sample(8), "<CALL:4>\u{1F4A9}<eor>");
    assert_eq!(
        GrpcVectorKind::ImportAdifGarbage.sample(7),
        format!("{}...", "A".repeat(80))
    );
    assert_eq!(GrpcVectorKind::ExportAdifChaos.sample(3), "after-seconds=291");
    assert_eq!(
        GrpcVectorKind::ExportAdifChaos.sample(usize::MAX),
        format!("after-seconds={}", usize::MAX)
    );
}

fn configuration(core: bool, grpc: bool) -> RunConfiguration {
    RunConfiguration {
        include_core_vectors: core,
        include_grpc_vectors: grpc,
        auto_start_engine: false,
        engine_endpoint: "http://127.0.0.1:50051".to_string(),
        grpc_parallelism: 2,
        metrics_interval_ms: 1000,
        duration_seconds: 0,
        recent_event_limit: 10,
    }
}

#[test]
fn session_lifecycle_registers_activates_and_completes_vectors() {
    let mut state = HarnessState::new();
    state.begin_session("smoke", &configuration(true, true));
    let snapshot = state.publish_after(Instant::now(), 0);
    assert_eq!(snapshot.vector_statuses.len(), 15);
    assert_eq!(snapshot.vector_statuses[0].vector_id, "core-adif-mapper");
    assert_eq!(snapshot.vector_statuses[14].vector_id, "grpc-updateqso-garbage");
    assert!(snapshot.vector_statuses.iter().all(|v| v.state == StressVectorState::Idle));
    assert_eq!(snapshot.recent_events.len(), 1);
    assert_eq!(snapshot.recent_events[0].message, "Profile 'smoke' selected.");
    assert_eq!(state.vector_status("core-ffi").unwrap().display_name, "FFI Abuse");

    state.activate_session();
    assert_eq!(state.snapshot().state, StressRunState::Running);
    assert_eq!(state.snapshot().status_message, "Stress run active.");
    assert_eq!(state.vector_status("grpc-getqso-garbage").unwrap().state, StressVectorState::Running);

    state.set_vector_state("core-ffi", StressVectorState::Failed);
    state.finish_session(StressRunState::Completed);
    assert_eq!(state.snapshot().status_message, "Stress run completed.");
    assert!(state.snapshot().ended_at_utc.is_some());
    assert_eq!(state.vector_status("core-ffi").unwrap().state, StressVectorState::Failed);
    assert_eq!(state.vector_status("core-band-mode").unwrap().state, StressVectorState::Completed);
    let last = state.publish_after(Instant::now(), 0);
    assert_eq!(last.recent_events.last().unwrap().message, "Stress run completed.");
}

#[test]
fn session_registers_only_the_included_families() {
    let mut state = HarnessState::new();
    state.begin_session("grpc only", &configuration(false, true));
    assert!(state.vector_status("core-ffi").is_none());
    assert!(state.vector_status("grpc-exportadif-chaos").is_some());
    state.begin_session("none", &configuration(false, false));
    assert!(state.publish_after(Instant::now(), 0).vector_statuses.is_empty());
    state.register_vector("custom", "Custom");
    state.activate_session();
    assert_eq!(state.vector_status("custom").unwrap().state, StressVectorState::Idle);
    state.finish_session(StressRunState::Stopped);
    assert_eq!(state.vector_status("custom").unwrap().state, StressVectorState::Completed);
    assert_eq!(state.snapshot().status_message, "Stress run stopped.");
}
