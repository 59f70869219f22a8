use biliup::amf::{read_entry, read_value_end, AmfValue, MAX_DEPTH};
use biliup::flv::ParseError;
use biliup::flv::TagType;
use biliup::tag::{parse_tag_data, TagDataHeader};

fn key(out: &mut Vec<u8>, k: &str) {
    out.extend_from_slice(&(k.len() as u16).to_be_bytes());
    out.extend_from_slice(k.as_bytes());
}

#[test]
fn metadata_entries() {
    let mut b = vec![0x02, 0x00, 0x0a];
    b.extend_from_slice(b"onMetaData");
    b.extend_from_slice(&[0x08, 0, 0, 0, 4]);
    key(&mut b, "duration");
    b.push(0x00);
    b.extend_from_slice(&12.5f64.to_be_bytes());
    key(&mut b, "stereo");
    b.extend_from_slice(&[0x01, 0x01]);
    key(&mut b, "encoder");
    b.extend_from_slice(&[0x02, 0x00, 0x03]);
    b.extend_from_slice(b"obs");
    key(&mut b, "x");
    b.push(0x05);
    b.extend_from_slice(&[0, 0, 9]);
    let size = b.len() as u32;
    b.extend_from_slice(&[0xaa, 0xbb]);
    match parse_tag_data(TagType::Script, size, &b).unwrap() {
        TagDataHeader::Script(s) => {
            assert_eq!(s.name, b"onMetaData".to_vec());
            assert_eq!(s.entries.len(), 4);
            assert_eq!(s.entries[0].key, b"duration".to_vec());
            match &s.entries[0].value {
                AmfValue::Number(n) => assert_eq!(f64::from_be_bytes(n.as_slice().try_into().unwrap()), 12.5),
                _ => panic!("not a number"),
            }
            assert!(matches!(s.entries[1].value, AmfValue::Boolean(true)));
            match &s.entries[2].value {
                AmfValue::Str(v) => assert_eq!(v, &b"obs".to_vec()),
                _ => panic!("not a string"),
            }
            assert!(matches!(s.entries[3].value, AmfValue::Null));
        }
        _ => panic!("not script"),
    }
}

#[test]
fn metadata_nested_values_stay_raw() {
    let mut b = vec![0x02, 0x00, 0x01, b'm', 0x03];
    key(&mut b, "a");
    b.extend_from_slice(&[0x01, 0x00]);
    key(&mut b, "nested");
    let nested_start = b.len();
    b.push(0x03);
    key(&mut b, "b");
    b.extend_from_slice(&[0x01, 0x01]);
    b.extend_from_slice(&[0, 0, 9]);
    let nested_end = b.len();
    key(&mut b, "list");
    let list_start = b.len();
    b.extend_from_slice(&[0x0a, 0, 0, 0, 2, 0x05, 0x01, 0x01]);
    let list_end = b.len();
    key(&mut b, "when");
    b.push(0x0b);
    b.extend_from_slice(&[0; 10]);
    b.extend_from_slice(&[0, 0, 9]);
    let size = b.len() as u32;
    match parse_tag_data(TagType::Script, size, &b).unwrap() {
        TagDataHeader::Script(s) => {
            assert_eq!(s.entries.len(), 4);
            assert!(matches!(s.entries[0].value, AmfValue::Boolean(false)));
            match &s.entries[1].value {
                AmfValue::Other(raw) => assert_eq!(raw, &b[nested_start..nested_end].to_vec()),
                _ => panic!("not raw"),
            }
            match &s.entries[2].value {
                AmfValue::Other(raw) => assert_eq!(raw, &b[list_start..list_end].to_vec()),
                _ => panic!("not raw"),
            }
            assert_eq!(s.entries[3].key, b"when".to_vec());
        }
        _ => panic!("not script"),
    }
}

#[test]
fn undecodable_metadata_is_malformed() {
    // An object whose end marker is missing.
    let mut b = vec![0x02, 0x00, 0x01, b'm', 0x03];
    key(&mut b, "a");
    b.extend_from_slice(&[0x01, 0x00]);
    assert_eq!(parse_tag_data(TagType::Script, b.len() as u32, &b).err(), Some(ParseError::Malformed));
    // An unknown value kind.
    let c = vec![0x02, 0x00, 0x01, b'm', 0x11];
    assert_eq!(parse_tag_data(TagType::Script, c.len() as u32, &c).err(), Some(ParseError::Malformed));
    // Objects nested deeper than the limit.
    let mut d = vec![0x02, 0x00, 0x01, b'm'];
    for _ in 0..70 {
        d.push(0x03);
        key(&mut d, "k");
    }
    d.push(0x05);
    for _ in 0..70 {
        d.extend_from_slice(&[0, 0, 9]);
    }
    assert_eq!(parse_tag_data(TagType::Script, d.len() as u32, &d).err(), Some(ParseError::Malformed));
    // A name alone is accepted.
    let e = vec![0x02, 0x00, 0x01, b'm'];
    assert!(parse_tag_data(TagType::Script, 4, &e).is_ok());
}

#[test]
fn value_ends() {
    assert_eq!(read_value_end(&[0x00, 1, 2, 3, 4, 5, 6, 7, 8], 0, MAX_DEPTH), Some(9));
    assert_eq!(read_value_end(&[0x0c, 0, 0, 0, 2, b'h', b'i'], 0, MAX_DEPTH), Some(7));
    assert_eq!(read_value_end(&[0x0c, 0, 0, 0, 3, b'h', b'i'], 0, MAX_DEPTH), None);
    assert_eq!(read_value_end(&[0x08, 0, 0, 0, 0, 0, 0, 9], 0, MAX_DEPTH), Some(8));
    assert_eq!(read_value_end(&[0x03, 0, 0, 9], 0, 0), None);
    assert_eq!(read_value_end(&[0x0a, 0, 0, 0, 1, 0x03, 0, 0, 9], 0, 1), None);
    assert_eq!(read_value_end(&[0x0a, 0, 0, 0, 1, 0x03, 0, 0, 9], 0, 2), Some(9));
    assert_eq!(read_value_end(&[0x10, 0, 1, b'C', 0, 0, 9], 0, MAX_DEPTH), Some(7));
}

#[test]
fn entry_reader_edges() {
    assert!(read_entry(&[0x00], 0).is_none());
    assert!(read_entry(&[0x00, 0x00, 0x09], 0).is_none());
    assert!(read_entry(&[0x00, 0x01, b'k', 0x00, 1, 2, 3], 0).is_none());
    let (e, next) = read_entry(&[9, 0x00, 0x01, b'k', 0x06, 7], 1).unwrap();
    assert_eq!(e.key, b"k".to_vec());
    assert!(matches!(e.value, AmfValue::Undefined));
    assert_eq!(next, 5);
}
