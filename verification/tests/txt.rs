use oxidns::rdata::basic::{TxtIter, TXT};

#[test]
fn txt_chunks_stop_at_an_overrunning_length() {
    let txt = TXT::new(vec![2, b'h', b'i', 2, 0xff, 0xfe, 5, b'x']);
    assert_eq!(txt.txt_data(), vec![b"hi".to_vec(), vec![0xff, 0xfe]]);
    assert_eq!(txt.txt_data_utf8(), vec![Some("hi".to_string()), None]);
}

#[test]
fn empty_txt_has_no_chunks() {
    let txt = TXT::new(vec![]);
    assert!(txt.txt_data().is_empty());
    assert!(txt.txt_data_utf8().is_empty());
    let one_empty = TXT::new(vec![0]);
    assert_eq!(one_empty.txt_data_utf8(), vec![Some(String::new())]);
}

#[test]
fn txt_cursor_reads_chunks_then_stays_done() {
    let wire = [2, b'h', b'i', 0, 5, b'x'];
    let mut it = TxtIter::new(&wire);
    assert_eq!(it.next(), Some(&b"hi"[..]));
    assert_eq!(it.next(), Some(&b""[..]));
    assert_eq!(it.next(), None);
    assert_eq!(it.next(), None);
}

fn rebuild(chunks: &[Vec<u8>]) -> Vec<u8> {
    let mut out = Vec::new();
    for c in chunks {
        out.push(c.len() as u8);
        out.extend_from_slice(c);
    }
    out
}

#[test]
fn complete_txt_wire_is_rebuilt_from_its_chunks() {
    let wire = vec![2, b'h', b'i', 0, 3, b'a', b'b', b'c'];
    let txt = TXT::new(wire.clone());
    assert_eq!(rebuild(&txt.txt_data()), wire);
    let truncated = TXT::new(vec![2, b'h', b'i', 5, b'x']);
    assert_eq!(rebuild(&truncated.txt_data()), vec![2, b'h', b'i']);
}
