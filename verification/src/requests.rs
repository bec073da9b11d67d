//! The requests the gRPC stress vectors send, as plain values: which
//! adversarial text fills which field of a contact, and the filters,
//! limits and flags chosen from the iteration number.

use vstd::prelude::*;
use crate::catalog::{
    adif_payload, adversarial_adif_payloads, adversarial_strings, adversarial_text, prefixed,
    ADIF_PAYLOAD_COUNT, ADVERSARIAL_STRING_COUNT,
};
use crate::stress::GrpcVectorKind;
use crate::textual::{decimal, decimal_chars};

verus! {

/// A band field: one of the two named bands the vectors use, or a number
/// that names no band.
#[derive(Debug, Clone, Copy, PartialEq, Eq, Structural)]
pub enum BandCode {
    Band20m,
    Band40m,
    Other(i32),
}

/// A mode field: one of the two named modes the vectors use, or a number
/// that names no mode.
#[derive(Debug, Clone, Copy, PartialEq, Eq, Structural)]
pub enum ModeCode {
    Ssb,
    Cw,
    Other(i32),
}

/// Adversarial text number `step + offset`, counted round the catalogue.
pub open spec fn adversarial_at(step: nat, offset: nat) -> Seq<char> {
    adversarial_text(((step + offset) % (ADVERSARIAL_STRING_COUNT as nat)) as int)
}

/// The contact time (seconds) of adversarial contact `step`: a recent
/// time, -1, half of `i64::MIN`, half of `i64::MAX`, 0, in turn.
pub open spec fn qso_seconds(step: nat) -> i64 {
    let k = step % 5;
    if k == 0 {
        1_731_600_000
    } else if k == 1 {
        (-1int) as i64
    } else if k == 2 {
        (-4_611_686_018_427_387_904int) as i64
    } else if k == 3 {
        4_611_686_018_427_387_903
    } else {
        0
    }
}

/// The contact time's nanoseconds: 0, -1, half of `i32::MIN`, 999999999,
/// 42, in turn.
pub open spec fn qso_nanos(step: nat) -> i32 {
    let k = step % 5;
    if k == 0 {
        0
    } else if k == 1 {
        (-1int) as i32
    } else if k == 2 {
        (-1_073_741_824int) as i32
    } else if k == 3 {
        999_999_999
    } else {
        42
    }
}

/// The band of adversarial contact `step`: 20 m, 40 m, -5, 99, in turn.
pub open spec fn qso_band(step: nat) -> BandCode {
    let k = step % 4;
    if k == 0 {
        BandCode::Band20m
    } else if k == 1 {
        BandCode::Band40m
    } else if k == 2 {
        BandCode::Other((-5int) as i32)
    } else {
        BandCode::Other(99)
    }
}

/// The mode of adversarial contact `step`: SSB, CW, -10, 88, in turn.
pub open spec fn qso_mode(step: nat) -> ModeCode {
    let k = step % 4;
    if k == 0 {
        ModeCode::Ssb
    } else if k == 1 {
        ModeCode::Cw
    } else if k == 2 {
        ModeCode::Other((-10int) as i32)
    } else {
        ModeCode::Other(88)
    }
}

/// The name of extra field `index`: `FIELD_` and the index.
pub open spec fn field_name(index: nat) -> Seq<char> {
    "FIELD_"@ + decimal(index)
}

/// A contact as the stress vectors send it.
#[derive(Debug)]
pub struct AdversarialQso {
    pub local_id: String,
    pub station_callsign: String,
    pub worked_callsign: String,
    pub band: BandCode,
    pub mode: ModeCode,
    pub utc_seconds: i64,
    pub utc_nanos: i32,
    pub comment: String,
    pub notes: String,
    pub extra_fields: Vec<(String, String)>,
}

/// `q` is adversarial contact `step` (its local id aside): callsigns,
/// comment and notes are the adversarial texts `step` to `step + 3`, band,
/// mode and time go round their lists, and it has `step % 6` extra fields
/// `FIELD_0`, `FIELD_1`, ... holding the texts from `step + 4` on.
pub open spec fn is_adversarial_qso(q: AdversarialQso, step: nat) -> bool {
    &&& q.station_callsign@ == adversarial_at(step, 0)
    &&& q.worked_callsign@ == adversarial_at(step, 1)
    &&& q.band == qso_band(step)
    &&& q.mode == qso_mode(step)
    &&& q.utc_seconds == qso_seconds(step)
    &&& q.utc_nanos == qso_nanos(step)
    &&& q.comment@ == adversarial_at(step, 2)
    &&& q.notes@ == adversarial_at(step, 3)
    &&& q.extra_fields@.len() == step % 6
    &&& forall|i: int|
        0 <= i < q.extra_fields@.len() ==> (#[trigger] q.extra_fields@[i]).0@ == field_name(i as nat)
            && q.extra_fields@[i].1@ == adversarial_at(step, (i + 4) as nat)
}

fn pick(strings: &Vec<String>, step: usize, offset: usize) -> (r: String)
    requires
        strings@.len() == ADVERSARIAL_STRING_COUNT,
        forall|i: int| 0 <= i < ADVERSARIAL_STRING_COUNT ==> (#[trigger] strings@[i])@ == adversarial_text(i),
    ensures
        r@ == adversarial_at(step as nat, offset as nat),
{
    let n = strings.len();
    let k = (step % n + offset % n) % n;
    proof {
        vstd::arithmetic::div_mod::lemma_add_mod_noop(step as int, offset as int, n as int);
    }
    strings[k].clone()
}

/// Adversarial contact `step`, with an empty local id.
pub fn adversarial_qso(step: usize) -> (q: AdversarialQso)
    ensures
        is_adversarial_qso(q, step as nat),
        q.local_id@ == Seq::<char>::empty(),
{
    let strings = adversarial_strings();
    let (utc_seconds, utc_nanos): (i64, i32) = match step % 5 {
        0 => (1_731_600_000, 0),
        1 => (-1, -1),
        2 => (i64::MIN / 2, i32::MIN / 2),
        3 => (i64::MAX / 2, 999_999_999),
        _ => (0, 42),
    };
    let (band, mode) = match step % 4 {
        0 => (BandCode::Band20m, ModeCode::Ssb),
        1 => (BandCode::Band40m, ModeCode::Cw),
        2 => (BandCode::Other(-5), ModeCode::Other(-10)),
        _ => (BandCode::Other(99), ModeCode::Other(88)),
    };
    let count = step % 6;
    let mut extra_fields: Vec<(String, String)> = Vec::new();
    let mut index: usize = 0;
    while index < count
        invariant
            count == step % 6,
            index <= count,
            strings@.len() == ADVERSARIAL_STRING_COUNT,
            forall|i: int| 0 <= i < ADVERSARIAL_STRING_COUNT ==> (#[trigger] strings@[i])@ == adversarial_text(i),
            extra_fields@.len() == index,
            forall|i: int|
                0 <= i < index ==> (#[trigger] extra_fields@[i]).0@ == field_name(i as nat)
                    && extra_fields@[i].1@ == adversarial_at(step as nat, (i + 4) as nat),
        decreases count - index,
    {
        let digits = decimal_chars(index as u64);
        let name = prefixed("FIELD_", digits.as_slice());
        let value = pick(&strings, step, index + 4);
        extra_fields.push((name, value));
        index = index + 1;
    }
    let q = AdversarialQso {
        local_id: String::new(),
        station_callsign: pick(&strings, step, 0),
        worked_callsign: pick(&strings, step, 1),
        band,
        mode,
        utc_seconds,
        utc_nanos,
        comment: pick(&strings, step, 2),
        notes: pick(&strings, step, 3),
        extra_fields,
    };
    q
}

/// The filters and paging of a contact-list request.
#[derive(Debug)]
pub struct ListQsosParams {
    pub callsign_filter: String,
    pub band_filter: BandCode,
    pub mode_filter: ModeCode,
    pub limit: u32,
    pub offset: u32,
}

/// The band filter of listing `iteration`: 20 m, 40 m, -3, in turn.
pub open spec fn list_band(iteration: nat) -> BandCode {
    let k = iteration % 3;
    if k == 0 {
        BandCode::Band20m
    } else if k == 1 {
        BandCode::Band40m
    } else {
        BandCode::Other((-3int) as i32)
    }
}

/// The mode filter of listing `iteration`: SSB, CW, 77, in turn.
pub open spec fn list_mode(iteration: nat) -> ModeCode {
    let k = iteration % 3;
    if k == 0 {
        ModeCode::Ssb
    } else if k == 1 {
        ModeCode::Cw
    } else {
        ModeCode::Other(77)
    }
}

/// The contact-list request of iteration `iteration`: the adversarial text
/// of that number as callsign filter, band and mode filters in turn, a
/// limit from 1 to 250 and an offset below 100 (newest contacts first).
pub fn list_qsos_request(iteration: usize) -> (r: ListQsosParams)
    ensures
        r.callsign_filter@ == adversarial_at(iteration as nat, 0),
        r.band_filter == list_band(iteration as nat),
        r.mode_filter == list_mode(iteration as nat),
        r.limit == iteration % 250 + 1,
        r.offset == iteration % 100,
{
    let strings = adversarial_strings();
    let (band_filter, mode_filter) = match iteration % 3 {
        0 => (BandCode::Band20m, ModeCode::Ssb),
        1 => (BandCode::Band40m, ModeCode::Cw),
        _ => (BandCode::Other(-3), ModeCode::Other(77)),
    };
    ListQsosParams {
        callsign_filter: pick(&strings, iteration, 0),
        band_filter,
        mode_filter,
        limit: (iteration % 250 + 1) as u32,
        offset: (iteration % 100) as u32,
    }
}

/// The lower time bound (seconds) of export `iteration`: 97 seconds per
/// iteration, saturating at `usize::MAX`, and 0 where that exceeds
/// `i64::MAX`.
pub open spec fn export_after_seconds(iteration: nat) -> i64 {
    let p = if iteration * 97 > usize::MAX {
        usize::MAX as int
    } else {
        (iteration * 97) as int
    };
    if p <= i64::MAX {
        p as i64
    } else {
        0
    }
}

/// What one attempt of a gRPC vector sends.
#[derive(Debug)]
pub enum VectorRequest {
    LogQso { qso: AdversarialQso },
    LogEmptyQso,
    UpdateQso { qso: AdversarialQso },
    DeleteQso { local_id: String },
    GetQso { local_id: String },
    ListQsos { params: ListQsosParams },
    Lookup { callsign: String, skip_cache: bool },
    StreamLookup { callsign: String, skip_cache: bool },
    ImportAdif { payload: Vec<u8> },
    ExportAdif { after_seconds: i64, include_header: bool },
}

/// `r` is what vector `kind` sends on iteration `iteration`.
pub open spec fn is_vector_request(kind: GrpcVectorKind, iteration: nat, r: VectorRequest) -> bool {
    let garbage = adversarial_at(iteration, 0);
    match kind {
        GrpcVectorKind::LogQsoAdversarial => r matches VectorRequest::LogQso { qso } && is_adversarial_qso(
            qso,
            iteration,
        ) && qso.local_id@ == Seq::<char>::empty(),
        GrpcVectorKind::LogQsoMissingFields => r is LogEmptyQso,
        GrpcVectorKind::UpdateQsoGarbage => r matches VectorRequest::UpdateQso { qso }
            && is_adversarial_qso(qso, iteration) && qso.local_id@ == garbage,
        GrpcVectorKind::DeleteQsoGarbage => r matches VectorRequest::DeleteQso { local_id }
            && local_id@ == garbage,
        GrpcVectorKind::GetQsoGarbage => r matches VectorRequest::GetQso { local_id } && local_id@
            == garbage,
        GrpcVectorKind::ListQsosChaos => r matches VectorRequest::ListQsos { params } && {
            &&& params.callsign_filter@ == garbage
            &&& params.band_filter == list_band(iteration)
            &&& params.mode_filter == list_mode(iteration)
            &&& params.limit == iteration % 250 + 1
            &&& params.offset == iteration % 100
        },
        GrpcVectorKind::LookupAdversarial => r matches VectorRequest::Lookup { callsign, skip_cache }
            && callsign@ == garbage && skip_cache == (iteration % 2 == 0),
        GrpcVectorKind::StreamLookupAdversarial => r matches VectorRequest::StreamLookup {
            callsign,
            skip_cache,
        } && callsign@ == garbage && skip_cache == (iteration % 2 == 0),
        GrpcVectorKind::ImportAdifGarbage => r matches VectorRequest::ImportAdif { payload }
            && payload@ == adif_payload((iteration % (ADIF_PAYLOAD_COUNT as nat)) as int),
        GrpcVectorKind::ExportAdifChaos => r matches VectorRequest::ExportAdif {
            after_seconds,
            include_header,
        } && after_seconds == export_after_seconds(iteration) && include_header == (iteration % 2
            == 0),
    }
}

impl GrpcVectorKind {
    /// What this vector sends on iteration `iteration`.
    pub fn request(self, iteration: usize) -> (r: VectorRequest)
        ensures
            is_vector_request(self, iteration as nat, r),
    {
        match self {
            GrpcVectorKind::LogQsoAdversarial => VectorRequest::LogQso { qso: adversarial_qso(iteration) },
            GrpcVectorKind::LogQsoMissingFields => VectorRequest::LogEmptyQso,
            GrpcVectorKind::UpdateQsoGarbage => {
                let mut qso = adversarial_qso(iteration);
                let strings = adversarial_strings();
                qso.local_id = pick(&strings, iteration, 0);
                VectorRequest::UpdateQso { qso }
            },
            GrpcVectorKind::DeleteQsoGarbage => {
                let strings = adversarial_strings();
                VectorRequest::DeleteQso { local_id: pick(&strings, iteration, 0) }
            },
            GrpcVectorKind::GetQsoGarbage => {
                let strings = adversarial_strings();
                VectorRequest::GetQso { local_id: pick(&strings, iteration, 0) }
            },
            GrpcVectorKind::ListQsosChaos => VectorRequest::ListQsos { params: list_qsos_request(iteration) },
            GrpcVectorKind::LookupAdversarial => {
                let strings = adversarial_strings();
                VectorRequest::Lookup {
                    callsign: pick(&strings, iteration, 0),
                    skip_cache: iteration % 2 == 0,
                }
            },
            GrpcVectorKind::StreamLookupAdversarial => {
                let strings = adversarial_strings();
                VectorRequest::StreamLookup {
                    callsign: pick(&strings, iteration, 0),
                    skip_cache: iteration % 2 == 0,
                }
            },
            GrpcVectorKind::ImportAdifGarbage => {
                let payloads = adversarial_adif_payloads();
                let j = iteration % payloads.len();
                VectorRequest::ImportAdif { payload: payloads[j].clone() }
            },
            GrpcVectorKind::ExportAdifChaos => {
                let p: usize = match iteration.checked_mul(97) {
                    Some(v) => v,
                    None => usize::MAX,
                };
                let wide: u64 = p as u64;
                let after_seconds: i64 = if wide <= 9_223_372_036_854_775_807u64 {
                    wide as i64
                } else {
                    0
                };
                VectorRequest::ExportAdif { after_seconds, include_header: iteration % 2 == 0 }
            },
        }
    }
}

} // verus!
