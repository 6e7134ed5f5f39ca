//! The report of the latest run: one line per file, the digest, two spaces
//! and the path, as checksum tools read and write it.

use crate::store::are_integers;
use crate::store::are_records;
use crate::store::entries_ops;
use crate::store::file_entries;
use crate::store::greatest;
use crate::store::integers_of;
use crate::store::latest_run_id;
use crate::store::lemma_greatest;
use crate::store::ops_of;
use crate::store::params_of;
use crate::store::record_of;
use crate::store::records_in;
use crate::store::records_of;
use crate::store::rows_of;
use crate::store::FileEntry;
use crate::store::Op;
use crate::store::Record;
use crate::store::StoreError;
use crate::store::StoreOp;
use crate::store::Value;
use vstd::prelude::*;

verus! {

/// The line of one entry: its digest, two spaces, its path. The path stands
/// there byte for byte, whether or not it is valid text.
pub open spec fn line_of(record: Record) -> Seq<u8> {
    record.digest + seq![0x20u8, 0x20u8] + record.path
}

/// The report of some entries: each line, ended by a line feed.
pub open spec fn report_of(records: Seq<Record>) -> Seq<u8>
    decreases records.len(),
{
    if records.len() == 0 {
        Seq::empty()
    } else {
        report_of(records.drop_last()) + line_of(records.last()) + seq![0x0au8]
    }
}

/// What is asked of the store once the latest run is known: nothing where
/// there is no run, else the entries of that run and of no other.
pub open spec fn request_for(latest: Option<i64>) -> Seq<Op> {
    match latest {
        None => Seq::empty(),
        Some(run_id) => seq![Op::EntriesOfRun { run_id }],
    }
}

/// Appends all of `bytes` to `line`.
fn extend(line: &mut Vec<u8>, bytes: &[u8])
    ensures
        final(line)@ == old(line)@ + bytes@,
{
    let ghost before = line@;
    let mut i: usize = 0;
    assert(bytes@.take(0) =~= Seq::<u8>::empty());
    assert(before + bytes@.take(0) =~= before);
    while i < bytes.len()
        invariant
            i <= bytes.len(),
            line@ == before + bytes@.take(i as int),
        decreases bytes.len() - i,
    {
        line.push(bytes[i]);
        assert(bytes@.take(i as int + 1) =~= bytes@.take(i as int).push(bytes@[i as int]));
        assert(line@ =~= before + bytes@.take(i as int + 1));
        i += 1;
    }
    assert(bytes@.take(bytes.len() as int) =~= bytes@);
}

/// Renders the line of one entry.
pub fn render_line(entry: &FileEntry) -> (line: Vec<u8>)
    ensures
        line@ == line_of(entry@),
{
    let mut line: Vec<u8> = Vec::new();
    extend(&mut line, entry.digest.as_slice());
    line.push(0x20u8);
    line.push(0x20u8);
    extend(&mut line, entry.path.as_slice());
    assert(line@ =~= line_of(entry@));
    line
}

/// Renders the report of some entries.
pub fn render_report(entries: &Vec<FileEntry>) -> (report: Vec<u8>)
    ensures
        report@ == report_of(records_in(entries@)),
{
    let ghost records = records_in(entries@);
    let mut report: Vec<u8> = Vec::new();
    let mut i: usize = 0;
    assert(records.take(0) =~= Seq::<Record>::empty());
    while i < entries.len()
        invariant
            i <= entries.len(),
            records == records_in(entries@),
            report@ == report_of(records.take(i as int)),
        decreases entries.len() - i,
    {
        let line = render_line(&entries[i]);
        extend(&mut report, line.as_slice());
        report.push(0x0au8);
        proof {
            let longer = records.take(i as int + 1);
            assert(longer.drop_last() =~= records.take(i as int));
            assert(longer.last() == entries@[i as int]@);
        }
        i += 1;
    }
    assert(records.take(entries.len() as int) =~= records);
    report
}

/// The first half of a dump: from the store's answer to `latest_run_ops`,
/// what to ask next. That is nothing where the store holds no run, and else
/// the entries of the run with the greatest identifier.
pub fn dump_request(latest: &Vec<Vec<Value>>) -> (result: Result<Vec<StoreOp>, StoreError>)
    ensures
        result is Ok <==> are_integers(rows_of(latest@)),
        result matches Ok(ops) ==> ops_of(ops@) == request_for(
            greatest(integers_of(rows_of(latest@))),
        ),
        result matches Err(e) ==> e == StoreError::MalformedReply,
{
    match latest_run_id(latest) {
        Err(e) => Err(e),
        Ok(None) => {
            let ops: Vec<StoreOp> = Vec::new();
            assert(ops_of(ops@) =~= request_for(None));
            Ok(ops)
        },
        Ok(Some(run_id)) => Ok(entries_ops(run_id)),
    }
}

/// The second half of a dump: from the store's answer to what
/// `dump_request` asked, the report. Where nothing was asked there are no
/// rows, and the report is empty.
pub fn dump_output(entries: &Vec<Vec<Value>>) -> (result: Result<Vec<u8>, StoreError>)
    ensures
        result is Ok <==> are_records(rows_of(entries@)),
        result matches Ok(report) ==> report@ == report_of(records_of(rows_of(entries@))),
        result matches Err(e) ==> e == StoreError::MalformedReply,
{
    match file_entries(entries) {
        Err(e) => Err(e),
        Ok(list) => Ok(render_report(&list)),
    }
}

/// Without a run nothing is asked of the store, and without rows the report
/// has no line.
pub proof fn lemma_no_run_no_output()
    ensures
        request_for(None) == Seq::<Op>::empty(),
        report_of(records_of(Seq::empty())) == Seq::<u8>::empty(),
{
    assert(records_of(Seq::empty()) =~= Seq::<Record>::empty());
}

/// A path of any bytes, valid text or not, keeps every byte from the scan to
/// the report: the row that holds what was bound to the statement reads as
/// the same path and digest, and the line holds the digest, two spaces, and
/// then exactly the path.
pub proof fn lemma_path_round_trip(run_id: i64, path: Seq<u8>, digest: Seq<u8>)
    ensures
        ({
            let bound = params_of(Op::InsertEntry { run_id, path, digest });
            let record = Record { path, digest };
            &&& record_of(seq![bound[1], bound[2]]) == Some(record)
            &&& line_of(record).take(digest.len() as int) == digest
            &&& line_of(record).skip(digest.len() as int + 2) == path
        }),
{
    let record = Record { path, digest };
    assert(line_of(record).take(digest.len() as int) =~= digest);
    assert(line_of(record).skip(digest.len() as int + 2) =~= path);
}

/// A dump shows one run and no other: where the store shows run
/// identifiers, the entries asked for are those of the greatest of them.
pub proof fn lemma_dump_asks_for_the_latest_run_only(ids: Seq<i64>)
    ensures
        ids.len() == 0 ==> request_for(greatest(ids)) == Seq::<Op>::empty(),
        ids.len() > 0 ==> exists|run_id: i64|
            {
                &&& request_for(greatest(ids)) == seq![Op::EntriesOfRun { run_id }]
                &&& ids.contains(run_id)
                &&& forall|i: int| 0 <= i < ids.len() ==> ids[i] <= run_id
            },
{
    lemma_greatest(ids);
    if ids.len() > 0 {
        let run_id = greatest(ids)->0;
        assert(request_for(greatest(ids)) == seq![Op::EntriesOfRun { run_id }]);
    }
}

} // verus!
