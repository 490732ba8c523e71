use vstd::prelude::*;

verus! {

/// The fields of a telemetry record, in the order in which they are checked.
#[derive(PartialEq, Eq, Structural, Clone, Copy, Debug)]
pub enum Field {
    Balance,
    LargestAccounts,
    ClusterNodes,
    SlotLeaders,
    HealthStatus,
    BlockProductionRate,
}

/// What is wrong with one field of a record on the wire.
#[derive(PartialEq, Eq, Structural, Clone, Copy, Debug)]
pub enum Problem {
    Missing,
    Negative,
    TooLarge,
}

/// Why a telemetry payload could not be decoded.
#[derive(PartialEq, Eq, Clone, Debug)]
pub enum DecodeError {
    /// The body is not a JSON array of objects with fields of the right types.
    Syntax(String),
    /// Record `record` (0-based) has a field that breaks the schema.
    Field { record: usize, field: Field, problem: Problem },
}

/// One record as it stood in the payload: each field that was present, with
/// its integers still signed and unbounded by the schema.
#[derive(Clone, Debug)]
pub struct RawRecord {
    pub balance: Option<i128>,
    pub largest_accounts: Option<Vec<i128>>,
    pub cluster_nodes: Option<i128>,
    pub slot_leaders: Option<Vec<String>>,
    pub health_status: Option<String>,
    pub block_production_rate: Option<i128>,
}

/// One sampled snapshot of network and account state.
#[derive(Clone, Debug)]
pub struct TelemetryRecord {
    pub balance: u64,
    pub largest_accounts: Vec<u64>,
    pub cluster_nodes: u64,
    pub slot_leaders: Vec<String>,
    pub health_status: String,
    pub block_production_rate: u64,
}

/// What is wrong with one wire integer, if anything.
pub open spec fn int_problem(x: i128) -> Option<Problem> {
    if x < 0 {
        Some(Problem::Negative)
    } else if x > u64::MAX {
        Some(Problem::TooLarge)
    } else {
        None
    }
}

pub open spec fn count_problem(x: Option<i128>) -> Option<Problem> {
    match x {
        None => Some(Problem::Missing),
        Some(v) => int_problem(v),
    }
}

/// Index of the first entry of `s` that is not a valid `u64`, if any.
pub open spec fn first_bad_entry(s: Seq<i128>) -> Option<int> {
    if exists|i: int| 0 <= i < s.len() && int_problem(s[i]) is Some {
        Some(choose|i: int|
            0 <= i < s.len() && int_problem(s[i]) is Some && forall|j: int|
                0 <= j < i ==> int_problem(#[trigger] s[j]) is None)
    } else {
        None
    }
}

pub open spec fn list_problem(x: Option<Vec<i128>>) -> Option<Problem> {
    match x {
        None => Some(Problem::Missing),
        Some(v) => match first_bad_entry(v@) {
            None => None,
            Some(i) => int_problem(v@[i]),
        },
    }
}

/// The first field of `raw`, in schema order, that breaks the schema.
#[verifier::opaque]
pub open spec fn record_problem(raw: RawRecord) -> Option<(Field, Problem)> {
    if count_problem(raw.balance) is Some {
        Some((Field::Balance, count_problem(raw.balance)->0))
    } else if list_problem(raw.largest_accounts) is Some {
        Some((Field::LargestAccounts, list_problem(raw.largest_accounts)->0))
    } else if count_problem(raw.cluster_nodes) is Some {
        Some((Field::ClusterNodes, count_problem(raw.cluster_nodes)->0))
    } else if raw.slot_leaders is None {
        Some((Field::SlotLeaders, Problem::Missing))
    } else if raw.health_status is None {
        Some((Field::HealthStatus, Problem::Missing))
    } else if count_problem(raw.block_production_rate) is Some {
        Some((Field::BlockProductionRate, count_problem(raw.block_production_rate)->0))
    } else {
        None
    }
}

/// `rec` holds exactly what the well-formed `raw` held.
#[verifier::opaque]
pub open spec fn decodes_to(raw: RawRecord, rec: TelemetryRecord) -> bool {
    &&& raw.balance == Some(rec.balance as i128)
    &&& raw.largest_accounts is Some
    &&& raw.largest_accounts->0@.len() == rec.largest_accounts@.len()
    &&& forall|i: int|
        0 <= i < rec.largest_accounts@.len() ==> raw.largest_accounts->0@[i]
            == #[trigger] rec.largest_accounts@[i] as i128
    &&& raw.cluster_nodes == Some(rec.cluster_nodes as i128)
    &&& raw.slot_leaders == Some(rec.slot_leaders)
    &&& raw.health_status == Some(rec.health_status)
    &&& raw.block_production_rate == Some(rec.block_production_rate as i128)
}

/// Index of the first record of `raws` that breaks the schema, if any.
pub open spec fn first_bad_record(raws: Seq<RawRecord>) -> Option<int> {
    if exists|i: int| 0 <= i < raws.len() && record_problem(raws[i]) is Some {
        Some(choose|i: int|
            0 <= i < raws.len() && record_problem(raws[i]) is Some && forall|j: int|
                0 <= j < i ==> record_problem(#[trigger] raws[j]) is None)
    } else {
        None
    }
}

/// The error that decoding `raws` reports, if any.
pub open spec fn payload_error(raws: Seq<RawRecord>) -> Option<DecodeError> {
    match first_bad_record(raws) {
        None => None,
        Some(i) => {
            let (field, problem) = record_problem(raws[i])->0;
            Some(DecodeError::Field { record: i as usize, field, problem })
        },
    }
}

proof fn lemma_first_bad_entry(s: Seq<i128>, k: int)
    requires
        0 <= k < s.len(),
        int_problem(s[k]) is Some,
        forall|j: int| 0 <= j < k ==> int_problem(#[trigger] s[j]) is None,
    ensures
        first_bad_entry(s) == Some(k),
{
    let c = choose|i: int|
        0 <= i < s.len() && int_problem(s[i]) is Some && forall|j: int|
            0 <= j < i ==> int_problem(#[trigger] s[j]) is None;
    if c < k {
        assert(int_problem(s[c]) is None);
    } else if c > k {
        assert(int_problem(s[k]) is None);
    }
}

pub(crate) proof fn lemma_first_bad_record(raws: Seq<RawRecord>, k: int)
    requires
        0 <= k < raws.len(),
        record_problem(raws[k]) is Some,
        forall|j: int| 0 <= j < k ==> record_problem(#[trigger] raws[j]) is None,
    ensures
        first_bad_record(raws) == Some(k),
{
    let c = choose|i: int|
        0 <= i < raws.len() && record_problem(raws[i]) is Some && forall|j: int|
            0 <= j < i ==> record_problem(#[trigger] raws[j]) is None;
    if c < k {
        assert(record_problem(raws[c]) is None);
    } else if c > k {
        assert(record_problem(raws[k]) is None);
    }
}

/// Some record at or before `i` is the first bad one, when record `i` is bad.
pub(crate) proof fn lemma_some_first_bad_record(raws: Seq<RawRecord>, i: int) -> (k: int)
    requires
        0 <= i < raws.len(),
        record_problem(raws[i]) is Some,
    ensures
        0 <= k <= i,
        first_bad_record(raws) == Some(k),
    decreases i,
{
    if exists|j: int| 0 <= j < i && record_problem(raws[j]) is Some {
        let j = choose|j: int| 0 <= j < i && record_problem(raws[j]) is Some;
        lemma_some_first_bad_record(raws, j)
    } else {
        lemma_first_bad_record(raws, i);
        i
    }
}

fn check_count(x: Option<i128>) -> (r: Result<u64, Problem>)
    ensures
        match count_problem(x) {
            Some(p) => r == Err::<u64, Problem>(p),
            None => r is Ok && x == Some(r->Ok_0 as i128),
        },
{
    match x {
        None => Err(Problem::Missing),
        Some(v) => {
            if v < 0 {
                Err(Problem::Negative)
            } else if v > u64::MAX as i128 {
                Err(Problem::TooLarge)
            } else {
                Ok(v as u64)
            }
        },
    }
}

fn check_list(x: Option<Vec<i128>>) -> (r: Result<Vec<u64>, Problem>)
    ensures
        match list_problem(x) {
            Some(p) => r == Err::<Vec<u64>, Problem>(p),
            None => r is Ok && x is Some && x->0@.len() == r->Ok_0@.len() && forall|i: int|
                0 <= i < r->Ok_0@.len() ==> x->0@[i] == #[trigger] r->Ok_0@[i] as i128,
        },
{
    match x {
        None => Err(Problem::Missing),
        Some(v) => {
            let mut out: Vec<u64> = Vec::new();
            let mut i: usize = 0;
            while i < v.len()
                invariant
                    x == Some(v),
                    i <= v@.len(),
                    out@.len() == i,
                    forall|j: int| 0 <= j < i ==> v@[j] == #[trigger] out@[j] as i128,
                    forall|j: int| 0 <= j < i ==> int_problem(#[trigger] v@[j]) is None,
                decreases v@.len() - i,
            {
                let e = v[i];
                if e < 0 || e > u64::MAX as i128 {
                    proof {
                        lemma_first_bad_entry(v@, i as int);
                    }
                    if e < 0 {
                        return Err(Problem::Negative);
                    } else {
                        return Err(Problem::TooLarge);
                    }
                }
                out.push(e as u64);
                i = i + 1;
            }
            assert(first_bad_entry(v@) is None);
            Ok(out)
        },
    }
}

/// Checks one record against the schema and converts it; the error names the
/// first offending field.
pub fn decode_record(raw: RawRecord) -> (r: Result<TelemetryRecord, (Field, Problem)>)
    ensures
        match record_problem(raw) {
            Some(fp) => r == Err::<TelemetryRecord, (Field, Problem)>(fp),
            None => r is Ok && decodes_to(raw, r->Ok_0),
        },
{
    reveal(record_problem);
    reveal(decodes_to);
    let ghost g = raw;
    let balance = match check_count(raw.balance) {
        Ok(b) => b,
        Err(p) => return Err((Field::Balance, p)),
    };
    let largest_accounts = match check_list(raw.largest_accounts) {
        Ok(l) => l,
        Err(p) => return Err((Field::LargestAccounts, p)),
    };
    let cluster_nodes = match check_count(raw.cluster_nodes) {
        Ok(c) => c,
        Err(p) => return Err((Field::ClusterNodes, p)),
    };
    let slot_leaders = match raw.slot_leaders {
        Some(s) => s,
        None => return Err((Field::SlotLeaders, Problem::Missing)),
    };
    let health_status = match raw.health_status {
        Some(h) => h,
        None => return Err((Field::HealthStatus, Problem::Missing)),
    };
    let block_production_rate = match check_count(raw.block_production_rate) {
        Ok(b) => b,
        Err(p) => return Err((Field::BlockProductionRate, p)),
    };
    let rec = TelemetryRecord {
        balance,
        largest_accounts,
        cluster_nodes,
        slot_leaders,
        health_status,
        block_production_rate,
    };
    assert(decodes_to(g, rec));
    Ok(rec)
}

/// Decodes a whole payload: every record must meet the schema, else the
/// first record that does not is reported and nothing is returned.
pub fn decode_records(raws: Vec<RawRecord>) -> (r: Result<Vec<TelemetryRecord>, DecodeError>)
    ensures
        match payload_error(raws@) {
            Some(e) => r == Err::<Vec<TelemetryRecord>, DecodeError>(e),
            None => r is Ok && r->Ok_0@.len() == raws@.len() && forall|i: int|
                0 <= i < raws@.len() ==> decodes_to(raws@[i], #[trigger] r->Ok_0@[i]),
        },
{
    let ghost all = raws@;
    let n = raws.len();
    let mut rest = raws;
    let mut out: Vec<TelemetryRecord> = Vec::new();
    let mut k: usize = 0;
    while rest.len() > 0
        invariant
            all == raws@,
            all.len() == n,
            k <= all.len(),
            rest@ == all.subrange(k as int, all.len() as int),
            out@.len() == k,
            forall|j: int| 0 <= j < k ==> record_problem(#[trigger] all[j]) is None,
            forall|j: int| 0 <= j < k ==> decodes_to(all[j], #[trigger] out@[j]),
        decreases rest@.len(),
    {
        let raw = rest.remove(0);
        assert(raw == all[k as int]);
        assert(rest@ == all.subrange(k + 1, all.len() as int));
        match decode_record(raw) {
            Ok(rec) => {
                let ghost before = out@;
                out.push(rec);
                assert(forall|j: int| 0 <= j < k ==> out@[j] == before[j]);
            },
            Err((field, problem)) => {
                proof {
                    lemma_first_bad_record(all, k as int);
                }
                return Err(DecodeError::Field { record: k, field, problem });
            },
        }
        k = k + 1;
    }
    assert(first_bad_record(all) is None);
    Ok(out)
}

} // verus!
