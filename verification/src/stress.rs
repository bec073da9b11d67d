//! The stress harness's pure parts: worker fan-out, endpoint handling, the
//! adversarial input catalogues and the run ledger.

use vstd::prelude::*;
use crate::snapshot::chars_eq;
use crate::textual::{chars_to_string, str_to_chars, trim, trim_chars};

verus! {

/// The share of `total` workers that vector `index` of `count` gets.
pub open spec fn worker_share(total: nat, count: nat, index: int) -> nat {
    if total == 0 || count == 0 {
        0
    } else {
        total / count + if index < total % count {
            1nat
        } else {
            0nat
        }
    }
}

/// The sum of the first `k` entries of `s`.
pub open spec fn sum_first(s: Seq<usize>, k: int) -> int
    decreases k,
{
    if k <= 0 {
        0
    } else {
        sum_first(s, k - 1) + s[k - 1]
    }
}

/// Spreads `total_workers` over `vector_count` vectors as evenly as
/// possible, the first vectors taking one extra worker each.
pub fn distribute_workers(total_workers: u32, vector_count: usize) -> (r: Vec<usize>)
    ensures
        r.len() == vector_count,
        forall|i: int|
            0 <= i < vector_count ==> r@[i] == worker_share(
                total_workers as nat,
                vector_count as nat,
                i,
            ),
{
    let total = total_workers as usize;
    let mut counts: Vec<usize> = Vec::new();
    if total == 0 || vector_count == 0 {
        let mut i: usize = 0;
        while i < vector_count
            invariant
                i <= vector_count,
                total == 0 || vector_count == 0,
                total == total_workers,
                counts.len() == i,
                forall|j: int| 0 <= j < i ==> counts@[j] == 0,
            decreases vector_count - i,
        {
            counts.push(0);
            i = i + 1;
        }
        return counts;
    }
    let base = total / vector_count;
    let remainder = total % vector_count;
    let mut index: usize = 0;
    while index < vector_count
        invariant
            index <= vector_count,
            vector_count > 0,
            total == total_workers,
            total > 0,
            base == total / vector_count,
            remainder == total % vector_count,
            counts.len() == index,
            forall|j: int|
                0 <= j < index ==> counts@[j] == worker_share(
                    total_workers as nat,
                    vector_count as nat,
                    j,
                ),
        decreases vector_count - index,
    {
        let extra: usize = if index < remainder {
            1
        } else {
            0
        };
        assert(base + extra <= total) by (nonlinear_arith)
            requires
                base == total / vector_count,
                remainder == total % vector_count,
                vector_count > 0,
                extra <= 1,
                extra == 1 ==> remainder >= 1,
        {
            assert(total == base * vector_count + remainder);
            assert(base <= base * vector_count);
        }
        counts.push(base + extra);
        index = index + 1;
    }
    counts
}

/// Spreading workers over at least one vector hands out every worker: the
/// shares that `distribute_workers` returns sum to the total.
pub proof fn lemma_distribution_hands_out_every_worker(total: nat, count: nat, shares: Seq<usize>)
    requires
        count > 0,
        shares.len() == count,
        forall|i: int| 0 <= i < count ==> shares[i] == worker_share(total, count, i),
    ensures
        sum_first(shares, count as int) == total,
{
    if total > 0 {
        lemma_sum_shares(total, count, shares, count as int);
        assert(total == count * (total / count) + total % count) by (nonlinear_arith)
            requires
                count > 0,
        ;
    } else {
        lemma_sum_zero(shares, count as int);
    }
}

proof fn lemma_sum_zero(s: Seq<usize>, k: int)
    requires
        0 <= k <= s.len(),
        forall|i: int| 0 <= i < k ==> s[i] == 0,
    ensures
        sum_first(s, k) == 0,
    decreases k,
{
    if k > 0 {
        lemma_sum_zero(s, k - 1);
    }
}

proof fn lemma_sum_shares(total: nat, count: nat, s: Seq<usize>, k: int)
    requires
        total > 0,
        count > 0,
        0 <= k <= count,
        s.len() == count,
        forall|i: int| 0 <= i < count ==> s[i] == worker_share(total, count, i),
    ensures
        sum_first(s, k) == k * (total / count) + if k < total % count {
            k
        } else {
            (total % count) as int
        },
    decreases k,
{
    if k > 0 {
        lemma_sum_shares(total, count, s, k - 1);
        let q = total / count;
        let r = total % count;
        assert(s[k - 1] == q + if k - 1 < r { 1int } else { 0int });
        assert((k - 1) * q + q == k * q) by (nonlinear_arith);
    } else {
        assert(0 * (total / count) == 0) by (nonlinear_arith);
    }
}

/// Neighbouring vectors' shares differ by at most one, earlier ones never
/// getting fewer.
pub proof fn lemma_distribution_is_even(total: nat, count: nat, i: int, j: int)
    requires
        0 <= i <= j < count,
    ensures
        worker_share(total, count, j) <= worker_share(total, count, i) <= worker_share(
            total,
            count,
            j,
        ) + 1,
{
}


/// The lifecycle of a stress run.
#[derive(Debug, Clone, Copy, PartialEq, Eq, Structural)]
pub enum StressRunState {
    Idle,
    Starting,
    Running,
    Completed,
    Failed,
    Stopped,
}

/// The lifecycle of one stress vector.
#[derive(Debug, Clone, Copy, PartialEq, Eq, Structural)]
pub enum StressVectorState {
    Idle,
    Running,
    Completed,
    Failed,
}

/// The severity of a stress-run log entry.
#[derive(Debug, Clone, Copy, PartialEq, Eq, Structural)]
pub enum StressLogLevel {
    Info,
    Warning,
    Error,
}

/// The gRPC stress vectors.
#[derive(Debug, Clone, Copy, PartialEq, Eq, Structural)]
pub enum GrpcVectorKind {
    LogQsoAdversarial,
    LogQsoMissingFields,
    UpdateQsoGarbage,
    DeleteQsoGarbage,
    GetQsoGarbage,
    ListQsosChaos,
    LookupAdversarial,
    StreamLookupAdversarial,
    ImportAdifGarbage,
    ExportAdifChaos,
}

/// The closing status message for a run that ended in `state`.
pub open spec fn final_message(state: StressRunState) -> Seq<char> {
    match state {
        StressRunState::Completed => "Stress run completed."@,
        StressRunState::Failed => "Stress run failed."@,
        _ => "Stress run stopped."@,
    }
}

/// The closing status message for a run that ended in `state`.
pub fn final_status_message(state: StressRunState) -> (r: &'static str)
    ensures
        r@ == final_message(state),
{
    match state {
        StressRunState::Completed => "Stress run completed.",
        StressRunState::Failed => "Stress run failed.",
        _ => "Stress run stopped.",
    }
}

/// `s` without any trailing `/`.
pub open spec fn trim_trailing_slashes(s: Seq<char>) -> Seq<char>
    decreases s.len(),
{
    if s.len() > 0 && s.last() == '/' {
        trim_trailing_slashes(s.drop_last())
    } else {
        s
    }
}

/// The listen address for a gRPC endpoint URL: surrounding whitespace and
/// trailing slashes removed and the `http://` or `https://` scheme stripped;
/// without either scheme the endpoint is kept exactly as given.
pub open spec fn listen_address(endpoint: Seq<char>) -> Seq<char> {
    let t = trim_trailing_slashes(trim(endpoint));
    if "http://"@.is_prefix_of(t) {
        t.skip(7)
    } else if "https://"@.is_prefix_of(t) {
        t.skip(8)
    } else {
        endpoint
    }
}

/// The `--listen` argument for a server at `engine_endpoint`; an error when
/// nothing is left of it.
pub fn endpoint_to_listen_argument(engine_endpoint: &str) -> (r: Result<String, String>)
    ensures
        listen_address(engine_endpoint@).len() == 0 ==> (r matches Err(m) && m@
            == "Engine endpoint is empty."@),
        listen_address(engine_endpoint@).len() > 0 ==> (r matches Ok(a) && a@ == listen_address(
            engine_endpoint@,
        )),
{
    proof {
        reveal_strlit("http://");
        reveal_strlit("https://");
    }
    let raw = str_to_chars(engine_endpoint);
    let trimmed = trim_chars(raw.as_slice());
    let mut end = trimmed.len();
    assert(trimmed@.take(end as int) =~= trimmed@);
    while end > 0 && trimmed[end - 1] == '/'
        invariant
            end <= trimmed.len(),
            trim_trailing_slashes(trimmed@) == trim_trailing_slashes(trimmed@.take(end as int)),
        decreases end,
    {
        assert(trimmed@.take(end as int).drop_last() =~= trimmed@.take(end - 1));
        end = end - 1;
    }
    proof {
        assert(trimmed@.take(trimmed.len() as int) =~= trimmed@);
    }
    let t = copy_prefix(trimmed.as_slice(), end);
    assert(t@ == trim_trailing_slashes(trim(engine_endpoint@)));
    let rest: Vec<char> = if t.len() >= 7 && t[0] == 'h' && t[1] == 't' && t[2] == 't' && t[3]
        == 'p' && t[4] == ':' && t[5] == '/' && t[6] == '/' {
        assert("http://"@.is_prefix_of(t@));
        skip_prefix(t.as_slice(), 7)
    } else if t.len() >= 8 && t[0] == 'h' && t[1] == 't' && t[2] == 't' && t[3] == 'p' && t[4]
        == 's' && t[5] == ':' && t[6] == '/' && t[7] == '/' {
        assert(!"http://"@.is_prefix_of(t@)) by {
            if "http://"@.is_prefix_of(t@) {
                assert(t@[4] == "http://"@[4]);
            }
        }
        assert("https://"@.is_prefix_of(t@));
        skip_prefix(t.as_slice(), 8)
    } else {
        assert(!"http://"@.is_prefix_of(t@)) by {
            if "http://"@.is_prefix_of(t@) {
                assert(t@[0] == "http://"@[0] && t@[1] == "http://"@[1] && t@[2] == "http://"@[2]
                    && t@[3] == "http://"@[3] && t@[4] == "http://"@[4] && t@[5] == "http://"@[5]
                    && t@[6] == "http://"@[6]);
            }
        }
        assert(!"https://"@.is_prefix_of(t@)) by {
            if "https://"@.is_prefix_of(t@) {
                assert(t@[0] == "https://"@[0] && t@[1] == "https://"@[1] && t@[2] == "https://"@[2]
                    && t@[3] == "https://"@[3] && t@[4] == "https://"@[4] && t@[5]
                    == "https://"@[5] && t@[6] == "https://"@[6] && t@[7] == "https://"@[7]);
            }
        }
        raw
    };
    if rest.len() == 0 {
        return Err("Engine endpoint is empty.".to_owned());
    }
    Ok(chars_to_string(rest.as_slice()))
}

/// The first `n` characters of `v`.
fn copy_prefix(v: &[char], n: usize) -> (r: Vec<char>)
    requires
        n <= v.len(),
    ensures
        r@ == v@.take(n as int),
{
    let mut r: Vec<char> = Vec::new();
    let mut i: usize = 0;
    while i < n
        invariant
            i <= n <= v.len(),
            r@ == v@.take(i as int),
        decreases n - i,
    {
        r.push(v[i]);
        assert(v@.take(i + 1) =~= v@.take(i as int).push(v@[i as int]));
        i = i + 1;
    }
    r
}

/// The characters of `v` from position `k` on.
fn skip_prefix(v: &[char], k: usize) -> (r: Vec<char>)
    requires
        k <= v.len(),
    ensures
        r@ == v@.skip(k as int),
{
    let mut r: Vec<char> = Vec::new();
    let mut i: usize = k;
    while i < v.len()
        invariant
            k <= i <= v.len(),
            r@ == v@.subrange(k as int, i as int),
        decreases v.len() - i,
    {
        r.push(v[i]);
        assert(v@.subrange(k as int, i + 1) =~= v@.subrange(k as int, i as int).push(v@[i as int]));
        i = i + 1;
    }
    assert(v@.subrange(k as int, v.len() as int) =~= v@.skip(k as int));
    r
}

/// The gRPC vector a vector id names; any unknown id is `ExportAdifChaos`.
pub open spec fn vector_kind_of(id: Seq<char>) -> GrpcVectorKind {
    if id == "grpc-logqso-adversarial"@ {
        GrpcVectorKind::LogQsoAdversarial
    } else if id == "grpc-logqso-missing"@ {
        GrpcVectorKind::LogQsoMissingFields
    } else if id == "grpc-updateqso-garbage"@ {
        GrpcVectorKind::UpdateQsoGarbage
    } else if id == "grpc-deleteqso-garbage"@ {
        GrpcVectorKind::DeleteQsoGarbage
    } else if id == "grpc-getqso-garbage"@ {
        GrpcVectorKind::GetQsoGarbage
    } else if id == "grpc-listqsos-chaos"@ {
        GrpcVectorKind::ListQsosChaos
    } else if id == "grpc-lookup-adversarial"@ {
        GrpcVectorKind::LookupAdversarial
    } else if id == "grpc-streamlookup-adversarial"@ {
        GrpcVectorKind::StreamLookupAdversarial
    } else if id == "grpc-importadif-garbage"@ {
        GrpcVectorKind::ImportAdifGarbage
    } else {
        GrpcVectorKind::ExportAdifChaos
    }
}

impl GrpcVectorKind {
    /// The vector kind for a vector id; any unknown id is `ExportAdifChaos`.
    pub fn from_id(vector_id: &str) -> (k: Self)
        ensures
            k == vector_kind_of(vector_id@),
    {
        let id = str_to_chars(vector_id);
        let candidate = str_to_chars("grpc-logqso-adversarial");
        if chars_eq(id.as_slice(), candidate.as_slice()) {
            return GrpcVectorKind::LogQsoAdversarial;
        }
        let candidate = str_to_chars("grpc-logqso-missing");
        if chars_eq(id.as_slice(), candidate.as_slice()) {
            return GrpcVectorKind::LogQsoMissingFields;
        }
        let candidate = str_to_chars("grpc-updateqso-garbage");
        if chars_eq(id.as_slice(), candidate.as_slice()) {
            return GrpcVectorKind::UpdateQsoGarbage;
        }
        let candidate = str_to_chars("grpc-deleteqso-garbage");
        if chars_eq(id.as_slice(), candidate.as_slice()) {
            return GrpcVectorKind::DeleteQsoGarbage;
        }
        let candidate = str_to_chars("grpc-getqso-garbage");
        if chars_eq(id.as_slice(), candidate.as_slice()) {
            return GrpcVectorKind::GetQsoGarbage;
        }
        let candidate = str_to_chars("grpc-listqsos-chaos");
        if chars_eq(id.as_slice(), candidate.as_slice()) {
            return GrpcVectorKind::ListQsosChaos;
        }
        let candidate = str_to_chars("grpc-lookup-adversarial");
        if chars_eq(id.as_slice(), candidate.as_slice()) {
            return GrpcVectorKind::LookupAdversarial;
        }
        let candidate = str_to_chars("grpc-streamlookup-adversarial");
        if chars_eq(id.as_slice(), candidate.as_slice()) {
            return GrpcVectorKind::StreamLookupAdversarial;
        }
        let candidate = str_to_chars("grpc-importadif-garbage");
        if chars_eq(id.as_slice(), candidate.as_slice()) {
            return GrpcVectorKind::ImportAdifGarbage;
        }
        GrpcVectorKind::ExportAdifChaos
    }
}


/// A pair of strings.
pub fn text_pair(a: &str, b: &str) -> (r: (String, String))
    ensures
        r.0@ == a@,
        r.1@ == b@,
{
    (a.to_owned(), b.to_owned())
}

/// The views of a list of string pairs.
pub open spec fn pair_views(pairs: Seq<(String, String)>) -> Seq<(Seq<char>, Seq<char>)> {
    pairs.map_values(|p: (String, String)| (p.0@, p.1@))
}

/// In-process vector `i` of 5, by id and display name.
pub open spec fn core_vector(i: int) -> (Seq<char>, Seq<char>) {
    if i == 0 {
        ("core-adif-parse"@, "ADIF Parse Fuzzing"@)
    } else if i == 1 {
        ("core-adif-mapper"@, "ADIF Mapper Fuzzing"@)
    } else if i == 2 {
        ("core-qso-roundtrip"@, "QSO Roundtrip Chaos"@)
    } else if i == 3 {
        ("core-band-mode"@, "Band and Mode Parsing"@)
    } else {
        ("core-ffi"@, "FFI Abuse"@)
    }
}

/// gRPC vector `i` of 10, by id and display name.
pub open spec fn grpc_vector(i: int) -> (Seq<char>, Seq<char>) {
    if i == 0 {
        ("grpc-logqso-adversarial"@, "LogQso Adversarial"@)
    } else if i == 1 {
        ("grpc-logqso-missing"@, "LogQso Missing Fields"@)
    } else if i == 2 {
        ("grpc-updateqso-garbage"@, "UpdateQso Garbage"@)
    } else if i == 3 {
        ("grpc-deleteqso-garbage"@, "DeleteQso Garbage"@)
    } else if i == 4 {
        ("grpc-getqso-garbage"@, "GetQso Garbage"@)
    } else if i == 5 {
        ("grpc-listqsos-chaos"@, "ListQsos Chaos"@)
    } else if i == 6 {
        ("grpc-lookup-adversarial"@, "Lookup Adversarial"@)
    } else if i == 7 {
        ("grpc-streamlookup-adversarial"@, "StreamLookup Adversarial"@)
    } else if i == 8 {
        ("grpc-importadif-garbage"@, "ImportAdif Garbage"@)
    } else {
        ("grpc-exportadif-chaos"@, "ExportAdif Chaos"@)
    }
}

/// The in-process vectors, by id and display name.
pub open spec fn core_vector_table() -> Seq<(Seq<char>, Seq<char>)> {
    Seq::new(5, |i: int| core_vector(i))
}

/// The gRPC vectors, by id and display name.
pub open spec fn grpc_vector_table() -> Seq<(Seq<char>, Seq<char>)> {
    Seq::new(10, |i: int| grpc_vector(i))
}

/// The vectors a run registers: the in-process ones, then the gRPC ones,
/// each family when it is included.
pub open spec fn session_vector_table(include_core: bool, include_grpc: bool) -> Seq<
    (Seq<char>, Seq<char>),
> {
    (if include_core {
        core_vector_table()
    } else {
        seq![]
    }) + (if include_grpc {
        grpc_vector_table()
    } else {
        seq![]
    })
}

/// No two vectors share an id.
pub open spec fn ids_distinct(vectors: Seq<(Seq<char>, Seq<char>)>) -> bool {
    forall|a: int, b: int| 0 <= a < b < vectors.len() ==> (#[trigger] vectors[a]).0 != (#[trigger] vectors[b]).0
}

/// The in-process vectors, by id and display name.
pub fn core_vectors() -> (r: Vec<(String, String)>)
    ensures
        pair_views(r@) == core_vector_table(),
{
    let r = vec![
        text_pair("core-adif-parse", "ADIF Parse Fuzzing"),
        text_pair("core-adif-mapper", "ADIF Mapper Fuzzing"),
        text_pair("core-qso-roundtrip", "QSO Roundtrip Chaos"),
        text_pair("core-band-mode", "Band and Mode Parsing"),
        text_pair("core-ffi", "FFI Abuse"),
    ];
    assert(pair_views(r@) =~= core_vector_table());
    r
}

/// The gRPC vectors, by id and display name.
pub fn grpc_vectors() -> (r: Vec<(String, String)>)
    ensures
        pair_views(r@) == grpc_vector_table(),
{
    let r = vec![
        text_pair("grpc-logqso-adversarial", "LogQso Adversarial"),
        text_pair("grpc-logqso-missing", "LogQso Missing Fields"),
        text_pair("grpc-updateqso-garbage", "UpdateQso Garbage"),
        text_pair("grpc-deleteqso-garbage", "DeleteQso Garbage"),
        text_pair("grpc-getqso-garbage", "GetQso Garbage"),
        text_pair("grpc-listqsos-chaos", "ListQsos Chaos"),
        text_pair("grpc-lookup-adversarial", "Lookup Adversarial"),
        text_pair("grpc-streamlookup-adversarial", "StreamLookup Adversarial"),
        text_pair("grpc-importadif-garbage", "ImportAdif Garbage"),
        text_pair("grpc-exportadif-chaos", "ExportAdif Chaos"),
    ];
    assert(pair_views(r@) =~= grpc_vector_table());
    r
}

/// Every vector of a run has its own id.
pub proof fn lemma_vector_ids_distinct(include_core: bool, include_grpc: bool)
    ensures
        ids_distinct(session_vector_table(include_core, include_grpc)),
{
    proof_ids_revealed();
}

/// Id `i` of the fifteen vectors, the in-process ones first.
pub open spec fn vector_id(i: int) -> Seq<char> {
    if i < 5 {
        core_vector(i).0
    } else {
        grpc_vector(i - 5).0
    }
}

proof fn lemma_vector_id_pair(a: int, b: int)
    requires
        0 <= a < b < 15,
    ensures
        vector_id(a) != vector_id(b),
{
    reveal_strlit("core-adif-parse");
    reveal_strlit("core-adif-mapper");
    reveal_strlit("core-qso-roundtrip");
    reveal_strlit("core-band-mode");
    reveal_strlit("core-ffi");
    reveal_strlit("grpc-logqso-adversarial");
    reveal_strlit("grpc-logqso-missing");
    reveal_strlit("grpc-updateqso-garbage");
    reveal_strlit("grpc-deleteqso-garbage");
    reveal_strlit("grpc-getqso-garbage");
    reveal_strlit("grpc-listqsos-chaos");
    reveal_strlit("grpc-lookup-adversarial");
    reveal_strlit("grpc-streamlookup-adversarial");
    reveal_strlit("grpc-importadif-garbage");
    reveal_strlit("grpc-exportadif-chaos");
    assert("grpc-logqso-adversarial"@[7] != "grpc-lookup-adversarial"@[7]);
    assert("grpc-logqso-adversarial"@[5] != "grpc-importadif-garbage"@[5]);
    assert("grpc-logqso-missing"@[5] != "grpc-getqso-garbage"@[5]);
    assert("grpc-logqso-missing"@[6] != "grpc-listqsos-chaos"@[6]);
    assert("grpc-updateqso-garbage"@[5] != "grpc-deleteqso-garbage"@[5]);
    assert("grpc-getqso-garbage"@[5] != "grpc-listqsos-chaos"@[5]);
    assert("grpc-lookup-adversarial"@[5] != "grpc-importadif-garbage"@[5]);
    assert(vector_id(0).len() == 15);
    assert(vector_id(1).len() == 16);
    assert(vector_id(2).len() == 18);
    assert(vector_id(3).len() == 14);
    assert(vector_id(4).len() == 8);
    assert(vector_id(5).len() == 23);
    assert(vector_id(6).len() == 19);
    assert(vector_id(7).len() == 22);
    assert(vector_id(8).len() == 22);
    assert(vector_id(9).len() == 19);
    assert(vector_id(10).len() == 19);
    assert(vector_id(11).len() == 23);
    assert(vector_id(12).len() == 29);
    assert(vector_id(13).len() == 23);
    assert(vector_id(14).len() == 21);
}

proof fn proof_ids_revealed()
    ensures
        ids_distinct(core_vector_table() + grpc_vector_table()),
        ids_distinct(core_vector_table()),
        ids_distinct(grpc_vector_table()),
{
    let v = core_vector_table() + grpc_vector_table();
    assert forall|a: int, b: int| 0 <= a < b < v.len() implies (#[trigger] v[a]).0 != (
    #[trigger] v[b]).0 by {
        lemma_vector_id_pair(a, b);
        assert(v[a].0 == vector_id(a));
        assert(v[b].0 == vector_id(b));
    }
    let c = core_vector_table();
    assert forall|a: int, b: int| 0 <= a < b < c.len() implies (#[trigger] c[a]).0 != (
    #[trigger] c[b]).0 by {
        assert(c[a] == v[a] && c[b] == v[b]);
    }
    let g = grpc_vector_table();
    assert forall|a: int, b: int| 0 <= a < b < g.len() implies (#[trigger] g[a]).0 != (
    #[trigger] g[b]).0 by {
        assert(g[a] == v[a + 5] && g[b] == v[b + 5]);
    }
}

/// The vectors a run registers, by id and display name: the in-process
/// ones, then the gRPC ones, each family when it is included.
pub fn session_vectors(include_core: bool, include_grpc: bool) -> (r: Vec<(String, String)>)
    ensures
        pair_views(r@) == session_vector_table(include_core, include_grpc),
{
    let mut r: Vec<(String, String)> = if include_core {
        core_vectors()
    } else {
        Vec::new()
    };
    let ghost head = pair_views(r@);
    assert(head =~= (if include_core {
        core_vector_table()
    } else {
        seq![]
    }));
    if include_grpc {
        let g = grpc_vectors();
        let mut i: usize = 0;
        while i < g.len()
            invariant
                i <= g@.len(),
                pair_views(r@) == head + pair_views(g@).take(i as int),
            decreases g@.len() - i,
        {
            let pair = text_pair(g[i].0.as_str(), g[i].1.as_str());
            let ghost before = r@;
            assert((pair.0@, pair.1@) == pair_views(g@)[i as int]);
            r.push(pair);
            assert(pair_views(r@) =~= pair_views(before).push((pair.0@, pair.1@)));
            assert(pair_views(g@).take(i + 1) =~= pair_views(g@).take(i as int).push(
                pair_views(g@)[i as int],
            ));
            assert(pair_views(r@) =~= head + pair_views(g@).take(i + 1));
            i = i + 1;
        }
        assert(pair_views(g@).take(g@.len() as int) =~= pair_views(g@));
    }
    assert(pair_views(r@) =~= session_vector_table(include_core, include_grpc));
    r
}

/// The ids of every vector, in-process and gRPC.
pub open spec fn catalog_ids() -> Seq<Seq<char>> {
    session_vector_table(true, true).map_values(|v: (Seq<char>, Seq<char>)| v.0)
}

/// The ids of every vector, in-process and gRPC.
pub fn catalog_id_list() -> (r: Vec<Vec<char>>)
    ensures
        r@.map_values(|v: Vec<char>| v@) == catalog_ids(),
{
    let vs = session_vectors(true, true);
    let mut r: Vec<Vec<char>> = Vec::new();
    let mut i: usize = 0;
    while i < vs.len()
        invariant
            i <= vs@.len(),
            pair_views(vs@) == session_vector_table(true, true),
            r@.map_values(|v: Vec<char>| v@) == pair_views(vs@).take(i as int).map_values(
                |v: (Seq<char>, Seq<char>)| v.0,
            ),
        decreases vs@.len() - i,
    {
        let id = str_to_chars(vs[i].0.as_str());
        let ghost before = r@;
        assert(id@ == pair_views(vs@)[i as int].0);
        r.push(id);
        assert(r@.map_values(|v: Vec<char>| v@) =~= before.map_values(|v: Vec<char>| v@).push(
            id@,
        ));
        assert(pair_views(vs@).take(i + 1) =~= pair_views(vs@).take(i as int).push(
            pair_views(vs@)[i as int],
        ));
        assert(r@.map_values(|v: Vec<char>| v@) =~= pair_views(vs@).take(i + 1).map_values(
            |v: (Seq<char>, Seq<char>)| v.0,
        ));
        i = i + 1;
    }
    assert(pair_views(vs@).take(vs@.len() as int) =~= pair_views(vs@));
    r
}

} // verus!
