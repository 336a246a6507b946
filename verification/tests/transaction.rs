use cthulhu::transaction::parse_transaction;

const LEGACY: [u8; 99] = [0x01, 0x00, 0x00, 0x00, 0x01, 0x11, 0x11, 0x11, 0x11, 0x11, 0x11, 0x11, 0x11, 0x11, 0x11, 0x11, 0x11, 0x11, 0x11, 0x11, 0x11, 0x11, 0x11, 0x11, 0x11, 0x11, 0x11, 0x11, 0x11, 0x11, 0x11, 0x11, 0x11, 0x11, 0x11, 0x11, 0x11, 0x02, 0x00, 0x00, 0x00, 0x03, 0x01, 0x02, 0x03, 0xff, 0xff, 0xff, 0xff, 0x02, 0x00, 0xf2, 0x05, 0x2a, 0x01, 0x00, 0x00, 0x00, 0x19, 0x76, 0xa9, 0x14, 0xab, 0xab, 0xab, 0xab, 0xab, 0xab, 0xab, 0xab, 0xab, 0xab, 0xab, 0xab, 0xab, 0xab, 0xab, 0xab, 0xab, 0xab, 0xab, 0xab, 0x88, 0xac, 0xe8, 0x03, 0x00, 0x00, 0x00, 0x00, 0x00, 0x00, 0x02, 0x6a, 0x00, 0x00, 0x00, 0x00, 0x00];

const SEGWIT: [u8; 90] = [0x02, 0x00, 0x00, 0x00, 0x00, 0x01, 0x01, 0x00, 0x00, 0x00, 0x00, 0x00, 0x00, 0x00, 0x00, 0x00, 0x00, 0x00, 0x00, 0x00, 0x00, 0x00, 0x00, 0x00, 0x00, 0x00, 0x00, 0x00, 0x00, 0x00, 0x00, 0x00, 0x00, 0x00, 0x00, 0x00, 0x00, 0x00, 0x00, 0xff, 0xff, 0xff, 0xff, 0x00, 0xfe, 0xff, 0xff, 0xff, 0x01, 0x39, 0x30, 0x00, 0x00, 0x00, 0x00, 0x00, 0x00, 0x16, 0x00, 0x14, 0xcd, 0xcd, 0xcd, 0xcd, 0xcd, 0xcd, 0xcd, 0xcd, 0xcd, 0xcd, 0xcd, 0xcd, 0xcd, 0xcd, 0xcd, 0xcd, 0xcd, 0xcd, 0xcd, 0xcd, 0x02, 0x01, 0x07, 0x02, 0x08, 0x09, 0x01, 0x65, 0xcd, 0x1d];

fn err_of(data: &[u8]) -> String {
    match parse_transaction(data) {
        Err(e) => e,
        Ok(_) => panic!("parsed a malformed transaction"),
    }
}

#[test]
fn legacy_transaction_fields() {
    let tx = parse_transaction(&LEGACY).unwrap();
    assert_eq!(tx.version, 1);
    assert!(!tx.is_segwit);
    assert_eq!(tx.inputs.len(), 1);
    assert_eq!(tx.inputs[0].prev_txid, [0x11; 32]);
    assert_eq!(tx.inputs[0].prev_index, 2);
    assert_eq!(tx.outputs.len(), 2);
    assert_eq!(tx.outputs[0].value, 5_000_000_000);
    assert_eq!(tx.outputs[0].script_pubkey.len(), 25);
    assert_eq!(tx.outputs[1].value, 1000);
    assert_eq!(tx.outputs[1].script_pubkey, vec![0x6a, 0x00]);
    assert_eq!(tx.locktime, 0);
}

#[test]
fn segwit_transaction_fields() {
    let tx = parse_transaction(&SEGWIT).unwrap();
    assert_eq!(tx.version, 2);
    assert!(tx.is_segwit);
    assert_eq!(tx.inputs.len(), 1);
    assert_eq!(tx.inputs[0].prev_txid, [0; 32]);
    assert_eq!(tx.inputs[0].prev_index, 0xFFFF_FFFF);
    assert_eq!(tx.outputs.len(), 1);
    assert_eq!(tx.outputs[0].value, 12345);
    assert_eq!(tx.locktime, 500_000_001);
}

#[test]
fn negative_version_is_read_as_signed() {
    let mut data = LEGACY.to_vec();
    data[0..4].copy_from_slice(&(-2i32).to_le_bytes());
    assert_eq!(parse_transaction(&data).unwrap().version, -2);
}

#[test]
fn transaction_errors() {
    assert_eq!(err_of(&[1, 0, 0]), "TX data too short for version field");
    assert_eq!(err_of(&[1, 0, 0, 0, 0, 2, 1]), "Invalid SegWit flag — expected 0x01");
    assert_eq!(err_of(&[1, 0, 0, 0]), "Buffer too short for varint");
    assert_eq!(err_of(&LEGACY[..20]), "TX truncated while reading input prev_txid");
    assert_eq!(err_of(&LEGACY[..39]), "TX truncated while reading input prev_index");
    assert_eq!(err_of(&LEGACY[..41]), "Buffer too short for varint");
    assert_eq!(err_of(&LEGACY[..43]), "TX truncated while reading input scriptSig");
    assert_eq!(err_of(&LEGACY[..47]), "TX truncated while reading input sequence");
    assert_eq!(err_of(&LEGACY[..52]), "TX truncated while reading output value");
    assert_eq!(err_of(&LEGACY[..70]), "TX truncated while reading output scriptPubKey");
    assert_eq!(err_of(&LEGACY[..97]), "TX truncated while reading locktime");
}

#[test]
fn segwit_witness_items_are_skipped_by_length() {
    // Witness item announces 200 bytes that are not there: the locktime is missing.
    let mut data = SEGWIT[..80].to_vec();
    data.extend_from_slice(&[0x01, 0xC8]);
    assert_eq!(err_of(&data), "TX truncated while reading locktime");
    // Stack count missing altogether.
    assert_eq!(err_of(&SEGWIT[..80]), "Buffer too short for varint");
}

#[test]
fn five_byte_payload_with_zero_marker_is_legacy() {
    // Exactly one byte after the version: no room for a flag, so no SegWit.
    assert_eq!(err_of(&[1, 0, 0, 0, 0]), "Buffer too short for varint");
}

fn varint(n: u64) -> Vec<u8> {
    if n < 0xFD {
        vec![n as u8]
    } else if n <= 0xFFFF {
        let mut v = vec![0xFD];
        v.extend_from_slice(&(n as u16).to_le_bytes());
        v
    } else if n <= 0xFFFF_FFFF {
        let mut v = vec![0xFE];
        v.extend_from_slice(&(n as u32).to_le_bytes());
        v
    } else {
        let mut v = vec![0xFF];
        v.extend_from_slice(&n.to_le_bytes());
        v
    }
}

struct Written {
    version: i32,
    inputs: Vec<([u8; 32], u32, Vec<u8>, u32)>,
    outputs: Vec<(u64, Vec<u8>)>,
    witnesses: Option<Vec<Vec<Vec<u8>>>>,
    locktime: u32,
}

fn write_tx(w: &Written) -> Vec<u8> {
    let mut v = w.version.to_le_bytes().to_vec();
    if w.witnesses.is_some() {
        v.extend_from_slice(&[0x00, 0x01]);
    }
    v.extend(varint(w.inputs.len() as u64));
    for (txid, index, script, sequence) in &w.inputs {
        v.extend_from_slice(txid);
        v.extend_from_slice(&index.to_le_bytes());
        v.extend(varint(script.len() as u64));
        v.extend_from_slice(script);
        v.extend_from_slice(&sequence.to_le_bytes());
    }
    v.extend(varint(w.outputs.len() as u64));
    for (value, script) in &w.outputs {
        v.extend_from_slice(&value.to_le_bytes());
        v.extend(varint(script.len() as u64));
        v.extend_from_slice(script);
    }
    if let Some(stacks) = &w.witnesses {
        for stack in stacks {
            v.extend(varint(stack.len() as u64));
            for item in stack {
                v.extend(varint(item.len() as u64));
                v.extend_from_slice(item);
            }
        }
    }
    v.extend_from_slice(&w.locktime.to_le_bytes());
    v
}

fn assert_reads_back(w: &Written, bytes: &[u8]) {
    let tx = parse_transaction(bytes).unwrap();
    assert_eq!(tx.version, w.version);
    assert_eq!(tx.is_segwit, w.witnesses.is_some());
    assert_eq!(tx.inputs.len(), w.inputs.len());
    for (got, want) in tx.inputs.iter().zip(w.inputs.iter()) {
        assert_eq!(got.prev_txid, want.0);
        assert_eq!(got.prev_index, want.1);
    }
    assert_eq!(tx.outputs.len(), w.outputs.len());
    for (got, want) in tx.outputs.iter().zip(w.outputs.iter()) {
        assert_eq!(got.value, want.0);
        assert_eq!(got.script_pubkey, want.1);
    }
    assert_eq!(tx.locktime, w.locktime);
}

#[test]
fn legacy_transaction_written_out_reads_back() {
    let w = Written {
        version: -7,
        inputs: vec![
            ([0xA1; 32], 0, vec![0x51; 300], 0xFFFF_FFFE),
            ([0xB2; 32], 70_000, vec![], 1),
        ],
        outputs: vec![(0, vec![]), (u64::MAX, vec![0x6A; 253]), (21, vec![0xAC])],
        witnesses: None,
        locktime: 0xDEAD_BEEF,
    };
    assert_reads_back(&w, &write_tx(&w));
}

#[test]
fn segwit_transaction_written_out_reads_back() {
    let w = Written {
        version: 2,
        inputs: vec![
            ([0x01; 32], 3, vec![], 0),
            ([0x02; 32], 4, vec![0x00, 0x14], 0xFFFF_FFFF),
        ],
        outputs: vec![(99_999, vec![0x00, 0x14, 0x55])],
        witnesses: Some(vec![vec![vec![0x30; 72], vec![0x02; 33]], vec![vec![], vec![0x77; 600]]]),
        locktime: 800_000,
    };
    assert_reads_back(&w, &write_tx(&w));
    // A SegWit transaction with no input at all still reads.
    let empty = Written { version: 1, inputs: vec![], outputs: vec![], witnesses: Some(vec![]), locktime: 5 };
    assert_reads_back(&empty, &write_tx(&empty));
}

#[test]
fn bytes_after_the_locktime_are_ignored() {
    let mut legacy = LEGACY.to_vec();
    legacy.extend_from_slice(&[0xFF, 0x00, 0xFD, 0x13]);
    let a = parse_transaction(&LEGACY).unwrap();
    let b = parse_transaction(&legacy).unwrap();
    assert_eq!((a.version, a.is_segwit, a.locktime), (b.version, b.is_segwit, b.locktime));
    assert_eq!(a.inputs.len(), b.inputs.len());
    assert_eq!(a.inputs[0].prev_txid, b.inputs[0].prev_txid);
    assert_eq!(a.outputs[1].script_pubkey, b.outputs[1].script_pubkey);

    let mut segwit = SEGWIT.to_vec();
    segwit.push(0x00);
    let c = parse_transaction(&SEGWIT).unwrap();
    let d = parse_transaction(&segwit).unwrap();
    assert_eq!((c.version, c.is_segwit, c.locktime), (d.version, d.is_segwit, d.locktime));
    assert_eq!(c.outputs[0].value, d.outputs[0].value);
    assert_eq!(c.outputs[0].script_pubkey, d.outputs[0].script_pubkey);
}

#[test]
fn every_cut_short_transaction_is_refused() {
    let w = Written {
        version: 3,
        inputs: vec![([0x0C; 32], 1, vec![0x01; 260], 7)],
        outputs: vec![(5, vec![0x51])],
        witnesses: Some(vec![vec![vec![0x42; 3]]]),
        locktime: 9,
    };
    let written = write_tx(&w);
    for whole in [&LEGACY[..], &SEGWIT[..], &written[..]] {
        assert!(parse_transaction(whole).is_ok());
        for k in 0..whole.len() {
            assert!(parse_transaction(&whole[..k]).is_err(), "prefix of {} bytes read", k);
        }
    }
}
