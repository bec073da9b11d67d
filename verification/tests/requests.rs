use qsoripper::catalog::{adversarial_adif_payloads, adversarial_strings};
use qsoripper::requests::{adversarial_qso, list_qsos_request, BandCode, ModeCode, VectorRequest};
use qsoripper::stress::GrpcVectorKind;

#[test]
fn adversarial_qso_fields_follow_the_step() {
    let strings = adversarial_strings();
    let n = strings.len();
    let q = adversarial_qso(7);
    assert_eq!(q.local_id, "");
    assert_eq!(q.station_callsign, strings[7 % n]);
    assert_eq!(q.worked_callsign, strings[8 % n]);
    assert_eq!(q.comment, strings[9 % n]);
    assert_eq!(q.notes, strings[10 % n]);
    assert_eq!(q.band, BandCode::Other(99));
    assert_eq!(q.mode, ModeCode::Other(88));
    assert_eq!((q.utc_seconds, q.utc_nanos), (i64::MIN / 2, i32::MIN / 2));
    assert_eq!(q.extra_fields.len(), 1);
    assert_eq!(q.extra_fields[0], ("FIELD_0".to_string(), strings[11 % n].clone()));
    let q = adversarial_qso(0);
    assert_eq!((q.band, q.mode), (BandCode::Band20m, ModeCode::Ssb));
    assert_eq!((q.utc_seconds, q.utc_nanos), (1_731_600_000, 0));
    assert!(q.extra_fields.is_empty());
    let q = adversarial_qso(23);
    assert_eq!(q.extra_fields.len(), 5);
    assert_eq!(q.extra_fields[4].0, "FIELD_4");
    assert_eq!(q.extra_fields[4].1, strings[(23 + 8) % n]);
    assert_eq!(q.station_callsign, strings[23 % n]);
    let q = adversarial_qso(usize::MAX);
    assert_eq!(q.worked_callsign, strings[((usize::MAX % n) + 1) % n]);
}

#[test]
fn list_request_cycles_filters_and_paging() {
    let strings = adversarial_strings();
    let p = list_qsos_request(0);
    assert_eq!((p.band_filter, p.mode_filter, p.limit, p.offset), (BandCode::Band20m, ModeCode::Ssb, 1, 0));
    let p = list_qsos_request(254);
    assert_eq!((p.band_filter, p.mode_filter, p.limit, p.offset), (BandCode::Other(-3), ModeCode::Other(77), 5, 54));
    assert_eq!(p.callsign_filter, strings[254 % strings.len()]);
    let p = list_qsos_request(1);
    assert_eq!((p.band_filter, p.mode_filter), (BandCode::Band40m, ModeCode::Cw));
}

#[test]
fn vector_requests_by_kind() {
    let strings = adversarial_strings();
    match GrpcVectorKind::UpdateQsoGarbage.request(3) {
        VectorRequest::UpdateQso { qso } => {
            assert_eq!(qso.local_id, strings[3]);
            assert_eq!(qso.station_callsign, strings[3]);
        }
        other => panic!("unexpected {other:?}"),
    }
    match GrpcVectorKind::LookupAdversarial.request(4) {
        VectorRequest::Lookup { callsign, skip_cache } => {
            assert_eq!(callsign, strings[4]);
            assert!(skip_cache);
        }
        other => panic!("unexpected {other:?}"),
    }
    match GrpcVectorKind::ExportAdifChaos.request(3) {
        VectorRequest::ExportAdif { after_seconds, include_header } => {
            assert_eq!(after_seconds, 291);
            assert!(!include_header);
        }
        other => panic!("unexpected {other:?}"),
    }
    match GrpcVectorKind::ExportAdifChaos.request(usize::MAX) {
        VectorRequest::ExportAdif { after_seconds, .. } => {
            assert_eq!(after_seconds, i64::try_from(usize::MAX).unwrap_or(0));
        }
        other => panic!("unexpected {other:?}"),
    }
    let payloads = adversarial_adif_payloads();
    match GrpcVectorKind::ImportAdifGarbage.request(11) {
        VectorRequest::ImportAdif { payload } => assert_eq!(payload, payloads[11 % payloads.len()]),
        other => panic!("unexpected {other:?}"),
    }
    assert!(matches!(GrpcVectorKind::LogQsoMissingFields.request(5), VectorRequest::LogEmptyQso));
}
