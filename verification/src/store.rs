//! The persistent store, from the side of the one who talks to it: the
//! statements that set up the schema and keep runs and file entries, and the
//! reading of what comes back.
//!
//! Nothing here runs a statement. The caller runs each operation of a list
//! in order, and hands the rows of the last one to the function that reads
//! them.

use vstd::prelude::*;
use vstd::slice::slice_to_vec;
use vstd::string::StrSliceExecFns;
use vstd::string::StringSliceAdditionalSpecFns;
use vstd::utf8::encode_utf8;

verus! {

/// The directory that holds the store, relative to the directory that is
/// scanned.
pub fn store_dir() -> (path: &'static str)
    ensures
        path@ == "./.frzr/"@,
{
    "./.frzr/"
}

/// The file that holds the store.
pub fn store_file() -> (path: &'static str)
    ensures
        path@ == "./.frzr/frzr.db"@,
{
    "./.frzr/frzr.db"
}

/// The version of the table layout that this library sets up.
pub const SCHEMA_VERSION: i64 = 1;

/// A value bound to a statement or read from a row.
#[derive(Clone, Debug, PartialEq, Eq)]
pub enum Value {
    /// No value.
    Null,
    /// An integer.
    Integer(i64),
    /// A text.
    Text(String),
    /// Raw bytes.
    Blob(Vec<u8>),
    /// A value of a kind that no table of this library holds.
    Other,
}

/// What a `Value` stands for.
#[verifier::ext_equal]
pub ghost enum Datum {
    Null,
    Integer(i64),
    Text(Seq<char>),
    Blob(Seq<u8>),
    Other,
}

impl View for Value {
    type V = Datum;

    open spec fn view(&self) -> Datum {
        match self {
            Value::Null => Datum::Null,
            Value::Integer(n) => Datum::Integer(*n),
            Value::Text(text) => Datum::Text(text@),
            Value::Blob(bytes) => Datum::Blob(bytes@),
            Value::Other => Datum::Other,
        }
    }
}

/// One operation on the store.
#[derive(Clone, Debug, PartialEq, Eq)]
pub enum StoreOp {
    /// Create the table of schema versions, unless it exists.
    EnsureVersionTable,
    /// Ask for the highest schema version on record.
    LatestVersion,
    /// Create the table of runs.
    CreateRunTable,
    /// Create the table of file entries, each tied to a run.
    CreateEntryTable,
    /// Put a schema version on record.
    RecordVersion { version: i64 },
    /// Insert a run that starts now and has no end.
    InsertRun,
    /// Ask for the greatest identifier of a run.
    LatestRun,
    /// Insert the entry of one file into a run.
    InsertEntry { run_id: i64, path: Vec<u8>, digest: Vec<u8> },
    /// Set the end of a run to now.
    FinalizeRun { run_id: i64 },
    /// Ask for the path and digest of each entry of a run, in the order of
    /// insertion.
    EntriesOfRun { run_id: i64 },
}

/// What a `StoreOp` stands for.
#[verifier::ext_equal]
pub ghost enum Op {
    EnsureVersionTable,
    LatestVersion,
    CreateRunTable,
    CreateEntryTable,
    RecordVersion { version: i64 },
    InsertRun,
    LatestRun,
    InsertEntry { run_id: i64, path: Seq<u8>, digest: Seq<u8> },
    FinalizeRun { run_id: i64 },
    EntriesOfRun { run_id: i64 },
}

impl View for StoreOp {
    type V = Op;

    open spec fn view(&self) -> Op {
        match self {
            StoreOp::EnsureVersionTable => Op::EnsureVersionTable,
            StoreOp::LatestVersion => Op::LatestVersion,
            StoreOp::CreateRunTable => Op::CreateRunTable,
            StoreOp::CreateEntryTable => Op::CreateEntryTable,
            StoreOp::RecordVersion { version } => Op::RecordVersion { version: *version },
            StoreOp::InsertRun => Op::InsertRun,
            StoreOp::LatestRun => Op::LatestRun,
            StoreOp::InsertEntry { run_id, path, digest } => Op::InsertEntry {
                run_id: *run_id,
                path: path@,
                digest: digest@,
            },
            StoreOp::FinalizeRun { run_id } => Op::FinalizeRun { run_id: *run_id },
            StoreOp::EntriesOfRun { run_id } => Op::EntriesOfRun { run_id: *run_id },
        }
    }
}

/// The statement that performs an operation. Each `?` in it takes one of
/// the operation's parameters, in order.
pub open spec fn sql_of(op: Op) -> Seq<char> {
    match op {
        Op::EnsureVersionTable =>
            "CREATE TABLE IF NOT EXISTS schema_version (id INTEGER PRIMARY KEY ASC, version INTEGER);"@,
        Op::LatestVersion => "SELECT version FROM schema_version ORDER BY version DESC LIMIT 1;"@,
        Op::CreateRunTable =>
            "CREATE TABLE IF NOT EXISTS run (id INTEGER PRIMARY KEY ASC NOT NULL, start_time datetime NOT NULL, end_time datetime);"@,
        Op::CreateEntryTable =>
            "CREATE TABLE IF NOT EXISTS file_entry (id INTEGER PRIMARY KEY ASC NOT NULL, file_name BLOB, file_hash STRING, run_id INTEGER NOT NULL, FOREIGN KEY(run_id) REFERENCES run(id));"@,
        Op::RecordVersion { .. } => "INSERT INTO schema_version (version) VALUES (?);"@,
        Op::InsertRun => "INSERT INTO run (start_time) VALUES (CURRENT_TIMESTAMP);"@,
        Op::LatestRun => "SELECT id FROM run ORDER BY id DESC LIMIT 1;"@,
        Op::InsertEntry { .. } =>
            "INSERT INTO file_entry (run_id, file_name, file_hash) VALUES (?, ?, ?);"@,
        Op::FinalizeRun { .. } => "UPDATE run SET end_time = CURRENT_TIMESTAMP WHERE id = ?;"@,
        Op::EntriesOfRun { .. } =>
            "SELECT file_name, file_hash FROM file_entry WHERE run_id = ? ORDER BY id;"@,
    }
}

/// The values that an operation binds to its statement, in order.
pub open spec fn params_of(op: Op) -> Seq<Datum> {
    match op {
        Op::RecordVersion { version } => seq![Datum::Integer(version)],
        Op::InsertEntry { run_id, path, digest } => seq![
            Datum::Integer(run_id),
            Datum::Blob(path),
            Datum::Blob(digest),
        ],
        Op::FinalizeRun { run_id } => seq![Datum::Integer(run_id)],
        Op::EntriesOfRun { run_id } => seq![Datum::Integer(run_id)],
        _ => Seq::empty(),
    }
}

/// What a row of values stands for.
pub open spec fn data_of(values: Seq<Value>) -> Seq<Datum> {
    Seq::new(values.len(), |i: int| values[i]@)
}

/// What the rows of a reply stand for.
pub open spec fn rows_of(reply: Seq<Vec<Value>>) -> Seq<Seq<Datum>> {
    Seq::new(reply.len(), |i: int| data_of(reply[i]@))
}

/// What a list of operations stands for.
pub open spec fn ops_of(ops: Seq<StoreOp>) -> Seq<Op> {
    Seq::new(ops.len(), |i: int| ops[i]@)
}

impl StoreOp {
    /// The statement that performs the operation.
    pub fn sql(&self) -> (text: &'static str)
        ensures
            text@ == sql_of(self@),
    {
        match self {
            StoreOp::EnsureVersionTable =>
                "CREATE TABLE IF NOT EXISTS schema_version (id INTEGER PRIMARY KEY ASC, version INTEGER);",
            StoreOp::LatestVersion =>
                "SELECT version FROM schema_version ORDER BY version DESC LIMIT 1;",
            StoreOp::CreateRunTable =>
                "CREATE TABLE IF NOT EXISTS run (id INTEGER PRIMARY KEY ASC NOT NULL, start_time datetime NOT NULL, end_time datetime);",
            StoreOp::CreateEntryTable =>
                "CREATE TABLE IF NOT EXISTS file_entry (id INTEGER PRIMARY KEY ASC NOT NULL, file_name BLOB, file_hash STRING, run_id INTEGER NOT NULL, FOREIGN KEY(run_id) REFERENCES run(id));",
            StoreOp::RecordVersion { .. } => "INSERT INTO schema_version (version) VALUES (?);",
            StoreOp::InsertRun => "INSERT INTO run (start_time) VALUES (CURRENT_TIMESTAMP);",
            StoreOp::LatestRun => "SELECT id FROM run ORDER BY id DESC LIMIT 1;",
            StoreOp::InsertEntry { .. } =>
                "INSERT INTO file_entry (run_id, file_name, file_hash) VALUES (?, ?, ?);",
            StoreOp::FinalizeRun { .. } =>
                "UPDATE run SET end_time = CURRENT_TIMESTAMP WHERE id = ?;",
            StoreOp::EntriesOfRun { .. } =>
                "SELECT file_name, file_hash FROM file_entry WHERE run_id = ? ORDER BY id;",
        }
    }

    /// The values to bind to the statement: the first to its first `?`, and
    /// so on.
    pub fn params(&self) -> (values: Vec<Value>)
        ensures
            data_of(values@) == params_of(self@),
    {
        let mut values: Vec<Value> = Vec::new();
        match self {
            StoreOp::RecordVersion { version } => {
                values.push(Value::Integer(*version));
            },
            StoreOp::InsertEntry { run_id, path, digest } => {
                values.push(Value::Integer(*run_id));
                values.push(Value::Blob(slice_to_vec(path.as_slice())));
                values.push(Value::Blob(slice_to_vec(digest.as_slice())));
            },
            StoreOp::FinalizeRun { run_id } => {
                values.push(Value::Integer(*run_id));
            },
            StoreOp::EntriesOfRun { run_id } => {
                values.push(Value::Integer(*run_id));
            },
            _ => {},
        }
        assert(data_of(values@) =~= params_of(self@));
        values
    }
}

/// Why a reply of the store could not be used.
#[derive(Clone, Copy, Debug, PartialEq, Eq, Structural)]
pub enum StoreError {
    /// A row does not have the columns that the statement asked for.
    MalformedReply,
    /// A run was inserted and the store shows none.
    MissingRun,
}

/// The integer of a row that holds one integer and nothing else.
pub open spec fn integer_of(row: Seq<Datum>) -> Option<i64> {
    if row.len() == 1 && row[0] is Integer {
        Some(row[0]->Integer_0)
    } else {
        None
    }
}

/// Whether each row holds one integer and nothing else.
pub open spec fn are_integers(rows: Seq<Seq<Datum>>) -> bool {
    forall|i: int| 0 <= i < rows.len() ==> integer_of(#[trigger] rows[i]) is Some
}

/// The integers of such rows.
pub open spec fn integers_of(rows: Seq<Seq<Datum>>) -> Seq<i64> {
    Seq::new(rows.len(), |i: int| integer_of(rows[i])->0)
}

/// The greatest of some integers, if there is any.
pub open spec fn greatest(numbers: Seq<i64>) -> Option<i64>
    decreases numbers.len(),
{
    if numbers.len() == 0 {
        None
    } else {
        match greatest(numbers.drop_last()) {
            Some(most) if most >= numbers.last() => Some(most),
            _ => Some(numbers.last()),
        }
    }
}

/// What `greatest` is: nothing for no numbers; else one of the numbers that
/// none of them exceeds.
pub proof fn lemma_greatest(numbers: Seq<i64>)
    ensures
        greatest(numbers) is None <==> numbers.len() == 0,
        greatest(numbers) matches Some(most) ==> numbers.contains(most) && forall|i: int|
            0 <= i < numbers.len() ==> numbers[i] <= most,
    decreases numbers.len(),
{
    if numbers.len() > 0 {
        let front = numbers.drop_last();
        lemma_greatest(front);
        let most = greatest(numbers)->0;
        if most == numbers.last() {
            assert(numbers[numbers.len() - 1] == most);
        } else {
            let j = choose|j: int| 0 <= j < front.len() && front[j] == most;
            assert(numbers[j] == most);
        }
        assert forall|i: int| 0 <= i < numbers.len() implies numbers[i] <= most by {
            if i < front.len() {
                assert(front[i] == numbers[i]);
            }
        }
    }
}

/// Reads a row that holds one integer and nothing else.
fn read_integer(row: &Vec<Value>) -> (number: Option<i64>)
    ensures
        number == integer_of(data_of(row@)),
{
    if row.len() != 1 {
        return None;
    }
    match &row[0] {
        Value::Integer(n) => Some(*n),
        _ => None,
    }
}

/// Reads the greatest integer of a reply whose rows hold one integer each.
fn read_greatest(reply: &Vec<Vec<Value>>) -> (result: Result<Option<i64>, StoreError>)
    ensures
        are_integers(rows_of(reply@)) ==> result == Ok::<Option<i64>, StoreError>(
            greatest(integers_of(rows_of(reply@))),
        ),
        !are_integers(rows_of(reply@)) ==> result == Err::<Option<i64>, StoreError>(
            StoreError::MalformedReply,
        ),
{
    let ghost rows = rows_of(reply@);
    let mut most: Option<i64> = None;
    let mut i: usize = 0;
    assert(integers_of(rows).take(0) =~= Seq::<i64>::empty());
    while i < reply.len()
        invariant
            i <= reply.len(),
            rows == rows_of(reply@),
            forall|j: int| 0 <= j < i ==> integer_of(#[trigger] rows[j]) is Some,
            most == greatest(integers_of(rows).take(i as int)),
        decreases reply.len() - i,
    {
        match read_integer(&reply[i]) {
            None => {
                assert(integer_of(rows[i as int]) is None);
                return Err(StoreError::MalformedReply);
            },
            Some(n) => {
                proof {
                    let longer = integers_of(rows).take(i as int + 1);
                    assert(longer.drop_last() =~= integers_of(rows).take(i as int));
                    assert(longer.last() == n);
                }
                most = match most {
                    Some(m) if m >= n => Some(m),
                    _ => Some(n),
                };
            },
        }
        i += 1;
    }
    assert(integers_of(rows).take(reply.len() as int) =~= integers_of(rows));
    Ok(most)
}

/// The statements that come first on every opening of the store: make sure
/// that schema versions can be recorded, then ask for the highest one.
pub fn open_ops() -> (ops: Vec<StoreOp>)
    ensures
        ops_of(ops@) == seq![Op::EnsureVersionTable, Op::LatestVersion],
{
    let mut ops: Vec<StoreOp> = Vec::new();
    ops.push(StoreOp::EnsureVersionTable);
    ops.push(StoreOp::LatestVersion);
    assert(ops_of(ops@) =~= seq![Op::EnsureVersionTable, Op::LatestVersion]);
    ops
}

/// The schema version that the store's answer to `open_ops` shows: the
/// highest on record, or 0 where none is.
pub fn recorded_version(reply: &Vec<Vec<Value>>) -> (result: Result<i64, StoreError>)
    ensures
        are_integers(rows_of(reply@)) ==> result == Ok::<i64, StoreError>(
            match greatest(integers_of(rows_of(reply@))) {
                Some(version) => version,
                None => 0,
            },
        ),
        !are_integers(rows_of(reply@)) ==> result == Err::<i64, StoreError>(
            StoreError::MalformedReply,
        ),
{
    match read_greatest(reply) {
        Ok(Some(version)) => Ok(version),
        Ok(None) => Ok(0),
        Err(e) => Err(e),
    }
}

/// What sets a store of a given schema version up. A store at version 0 is
/// fresh: it gets the table of runs, the table of file entries, and then
/// `SCHEMA_VERSION` on record. Any other store is left as it is.
pub open spec fn bootstrap_of(version: i64) -> Seq<Op> {
    if version == 0 {
        seq![Op::CreateRunTable, Op::CreateEntryTable, Op::RecordVersion { version: SCHEMA_VERSION }]
    } else {
        Seq::empty()
    }
}

/// The statements that set up a store of the given schema version.
pub fn bootstrap_ops(version: i64) -> (ops: Vec<StoreOp>)
    ensures
        ops_of(ops@) == bootstrap_of(version),
{
    let mut ops: Vec<StoreOp> = Vec::new();
    if version == 0 {
        ops.push(StoreOp::CreateRunTable);
        ops.push(StoreOp::CreateEntryTable);
        ops.push(StoreOp::RecordVersion { version: SCHEMA_VERSION });
    }
    assert(ops_of(ops@) =~= bootstrap_of(version));
    ops
}

/// The statements that create a run: insert it, then read back the greatest
/// identifier, which is its own.
pub fn create_run_ops() -> (ops: Vec<StoreOp>)
    ensures
        ops_of(ops@) == seq![Op::InsertRun, Op::LatestRun],
{
    let mut ops: Vec<StoreOp> = Vec::new();
    ops.push(StoreOp::InsertRun);
    ops.push(StoreOp::LatestRun);
    assert(ops_of(ops@) =~= seq![Op::InsertRun, Op::LatestRun]);
    ops
}

/// The identifier of the run that `create_run_ops` created, from the
/// store's answer: the greatest one that it shows.
pub fn created_run_id(reply: &Vec<Vec<Value>>) -> (result: Result<i64, StoreError>)
    ensures
        !are_integers(rows_of(reply@)) ==> result == Err::<i64, StoreError>(
            StoreError::MalformedReply,
        ),
        are_integers(rows_of(reply@)) ==> result == (match greatest(
            integers_of(rows_of(reply@)),
        ) {
            Some(run_id) => Ok::<i64, StoreError>(run_id),
            None => Err::<i64, StoreError>(StoreError::MissingRun),
        }),
{
    match read_greatest(reply) {
        Ok(Some(run_id)) => Ok(run_id),
        Ok(None) => Err(StoreError::MissingRun),
        Err(e) => Err(e),
    }
}

/// The statement that appends the entry of one file to a run. The path goes
/// in as the bytes it is made of, the digest as the bytes of its text.
pub fn append_entry_ops(run_id: i64, path: &[u8], digest: &str) -> (ops: Vec<StoreOp>)
    ensures
        ops_of(ops@) == seq![
            Op::InsertEntry { run_id, path: path@, digest: encode_utf8(digest@) },
        ],
{
    let mut ops: Vec<StoreOp> = Vec::new();
    ops.push(
        StoreOp::InsertEntry {
            run_id,
            path: slice_to_vec(path),
            digest: slice_to_vec(digest.as_bytes()),
        },
    );
    assert(ops_of(ops@) =~= seq![
        Op::InsertEntry { run_id, path: path@, digest: encode_utf8(digest@) },
    ]);
    ops
}

/// The statement that sets the end of a run to the time of its execution.
pub fn finalize_run_ops(run_id: i64) -> (ops: Vec<StoreOp>)
    ensures
        ops_of(ops@) == seq![Op::FinalizeRun { run_id }],
{
    let mut ops: Vec<StoreOp> = Vec::new();
    ops.push(StoreOp::FinalizeRun { run_id });
    assert(ops_of(ops@) =~= seq![Op::FinalizeRun { run_id }]);
    ops
}

/// The statement that asks for the latest run.
pub fn latest_run_ops() -> (ops: Vec<StoreOp>)
    ensures
        ops_of(ops@) == seq![Op::LatestRun],
{
    let mut ops: Vec<StoreOp> = Vec::new();
    ops.push(StoreOp::LatestRun);
    assert(ops_of(ops@) =~= seq![Op::LatestRun]);
    ops
}

/// The identifier of the latest run, from the store's answer to
/// `latest_run_ops`: the greatest one that it shows, or `None` where the
/// store holds no run.
pub fn latest_run_id(reply: &Vec<Vec<Value>>) -> (result: Result<Option<i64>, StoreError>)
    ensures
        are_integers(rows_of(reply@)) ==> result == Ok::<Option<i64>, StoreError>(
            greatest(integers_of(rows_of(reply@))),
        ),
        !are_integers(rows_of(reply@)) ==> result == Err::<Option<i64>, StoreError>(
            StoreError::MalformedReply,
        ),
{
    read_greatest(reply)
}

/// The statement that asks for the entries of a run.
pub fn entries_ops(run_id: i64) -> (ops: Vec<StoreOp>)
    ensures
        ops_of(ops@) == seq![Op::EntriesOfRun { run_id }],
{
    let mut ops: Vec<StoreOp> = Vec::new();
    ops.push(StoreOp::EntriesOfRun { run_id });
    assert(ops_of(ops@) =~= seq![Op::EntriesOfRun { run_id }]);
    ops
}

/// One file as a run recorded it.
#[derive(Clone, Debug, PartialEq, Eq)]
pub struct FileEntry {
    /// The file's path, as raw bytes.
    pub path: Vec<u8>,
    /// The digest of the file's content, as the bytes of its hex text.
    pub digest: Vec<u8>,
}

/// What a `FileEntry` stands for.
#[verifier::ext_equal]
pub ghost struct Record {
    pub path: Seq<u8>,
    pub digest: Seq<u8>,
}

impl View for FileEntry {
    type V = Record;

    open spec fn view(&self) -> Record {
        Record { path: self.path@, digest: self.digest@ }
    }
}

/// What a list of entries stands for.
pub open spec fn records_in(entries: Seq<FileEntry>) -> Seq<Record> {
    Seq::new(entries.len(), |i: int| entries[i]@)
}

/// The bytes that a value holds: those of a blob as they are, those of a
/// text in UTF-8. Other values hold none.
pub open spec fn bytes_of(datum: Datum) -> Option<Seq<u8>> {
    match datum {
        Datum::Blob(bytes) => Some(bytes),
        Datum::Text(text) => Some(encode_utf8(text)),
        _ => None,
    }
}

/// The record of a row that holds a path and a digest and nothing else.
pub open spec fn record_of(row: Seq<Datum>) -> Option<Record> {
    if row.len() == 2 && bytes_of(row[0]) is Some && bytes_of(row[1]) is Some {
        Some(Record { path: bytes_of(row[0])->0, digest: bytes_of(row[1])->0 })
    } else {
        None
    }
}

/// Whether each row holds a path and a digest and nothing else.
pub open spec fn are_records(rows: Seq<Seq<Datum>>) -> bool {
    forall|i: int| 0 <= i < rows.len() ==> record_of(#[trigger] rows[i]) is Some
}

/// The records of such rows, row by row.
pub open spec fn records_of(rows: Seq<Seq<Datum>>) -> Seq<Record> {
    Seq::new(rows.len(), |i: int| record_of(rows[i])->0)
}

/// Reads the bytes of a value.
fn read_bytes(value: &Value) -> (bytes: Option<Vec<u8>>)
    ensures
        bytes is Some <==> bytes_of(value@) is Some,
        bytes matches Some(b) ==> Some(b@) == bytes_of(value@),
{
    match value {
        Value::Blob(bytes) => Some(slice_to_vec(bytes.as_slice())),
        Value::Text(text) => Some(slice_to_vec(text.as_str().as_bytes())),
        _ => None,
    }
}

/// Reads a row that holds a path and a digest and nothing else.
fn read_record(row: &Vec<Value>) -> (entry: Option<FileEntry>)
    ensures
        entry is Some <==> record_of(data_of(row@)) is Some,
        entry matches Some(e) ==> Some(e@) == record_of(data_of(row@)),
{
    if row.len() != 2 {
        return None;
    }
    match read_bytes(&row[0]) {
        None => None,
        Some(path) => match read_bytes(&row[1]) {
            None => None,
            Some(digest) => Some(FileEntry { path, digest }),
        },
    }
}

/// The entries of a run, from the store's answer to `entries_ops`: one per
/// row, in the order of the rows, each with the bytes that the row holds.
pub fn file_entries(reply: &Vec<Vec<Value>>) -> (result: Result<Vec<FileEntry>, StoreError>)
    ensures
        result is Ok <==> are_records(rows_of(reply@)),
        result matches Ok(entries) ==> records_in(entries@) == records_of(rows_of(reply@)),
        result matches Err(e) ==> e == StoreError::MalformedReply,
{
    let ghost rows = rows_of(reply@);
    let mut entries: Vec<FileEntry> = Vec::new();
    let mut i: usize = 0;
    while i < reply.len()
        invariant
            i <= reply.len(),
            rows == rows_of(reply@),
            entries@.len() == i,
            forall|j: int| 0 <= j < i ==> record_of(#[trigger] rows[j]) is Some,
            forall|j: int| 0 <= j < i ==> (#[trigger] entries@[j])@ == record_of(rows[j])->0,
        decreases reply.len() - i,
    {
        match read_record(&reply[i]) {
            None => {
                assert(record_of(rows[i as int]) is None);
                return Err(StoreError::MalformedReply);
            },
            Some(entry) => {
                entries.push(entry);
            },
        }
        i += 1;
    }
    assert(records_in(entries@) =~= records_of(rows));
    Ok(entries)
}

} // verus!
