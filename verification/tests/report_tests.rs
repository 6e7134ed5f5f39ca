use frzr::report::dump_output;
use frzr::report::dump_request;
use frzr::report::render_line;
use frzr::report::render_report;
use frzr::store::FileEntry;
use frzr::store::StoreError;
use frzr::store::StoreOp;
use frzr::store::Value;

fn entry(path: &[u8], digest: &str) -> FileEntry {
    FileEntry { path: path.to_vec(), digest: digest.as_bytes().to_vec() }
}

#[test]
fn line_is_digest_two_spaces_path() {
    let line = render_line(&entry(
        b"a",
        "ba7816bf8f01cfea414140de5dae2223b00361a396177a9cb410ff61f20015ad",
    ));
    assert_eq!(
        line,
        b"ba7816bf8f01cfea414140de5dae2223b00361a396177a9cb410ff61f20015ad  a".to_vec()
    );
}

#[test]
fn line_keeps_a_path_that_is_no_valid_text() {
    let path: Vec<u8> = vec![b'.', b'/', 0xff, 0xc3, 0x28, b' ', b' ', 0x00];
    let line = render_line(&entry(&path, "00ff"));
    assert_eq!(&line[..4], b"00ff");
    assert_eq!(&line[4..6], b"  ");
    assert_eq!(&line[6..], &path[..]);
}

#[test]
fn line_of_an_empty_entry_is_two_spaces() {
    assert_eq!(render_line(&entry(b"", "")), b"  ".to_vec());
}

#[test]
fn report_ends_each_line_with_a_line_feed() {
    let entries = vec![entry(b"./b/c", "d0"), entry(b"./a", "d1")];
    assert_eq!(render_report(&entries), b"d0  ./b/c\nd1  ./a\n".to_vec());
}

#[test]
fn report_of_no_entries_is_empty() {
    assert_eq!(render_report(&Vec::new()), Vec::<u8>::new());
}

#[test]
fn dump_asks_nothing_of_a_store_without_runs() {
    assert_eq!(dump_request(&Vec::new()), Ok(Vec::new()));
    assert_eq!(dump_output(&Vec::new()), Ok(Vec::new()));
}

#[test]
fn dump_asks_for_the_entries_of_the_latest_run_only() {
    assert_eq!(
        dump_request(&vec![vec![Value::Integer(3)]]),
        Ok(vec![StoreOp::EntriesOfRun { run_id: 3 }])
    );
    assert_eq!(
        dump_request(&vec![
            vec![Value::Integer(3)],
            vec![Value::Integer(8)],
            vec![Value::Integer(5)]
        ]),
        Ok(vec![StoreOp::EntriesOfRun { run_id: 8 }])
    );
}

#[test]
fn dump_refuses_a_reply_of_another_shape() {
    assert_eq!(dump_request(&vec![vec![Value::Null]]), Err(StoreError::MalformedReply));
    assert_eq!(
        dump_output(&vec![vec![Value::Integer(1), Value::Integer(2)]]),
        Err(StoreError::MalformedReply)
    );
}

#[test]
fn dump_output_has_one_line_per_row() {
    let reply = vec![
        vec![Value::Blob(b"a".to_vec()), Value::Blob(b"d0".to_vec())],
        vec![Value::Blob(vec![b'b', 0xff]), Value::Text("d1".to_string())],
    ];
    let mut expected: Vec<u8> = b"d0  a\nd1  b".to_vec();
    expected.push(0xff);
    expected.push(b'\n');
    assert_eq!(dump_output(&reply), Ok(expected));
}
