use cpp::add_two;
use cpp::cursor::text_of;
use cpp::data::CppParam;
use cpp::meta::{
    find_bytes, metadata_for, read_metadata, MetaData, MetaError, STRUCT_METADATA_MAGIC,
};
use cpp::srcmap::{lines_offsets, offset_line_col, SourceMap, Span, SpanError};

#[test]
fn add_two_adds_two() {
    assert_eq!(add_two(40), 42);
    assert_eq!(add_two(-2), 0);
}

#[test]
fn cpp_param_to_string() {
    let p = CppParam { mutable: false, name: "x".to_string(), ty: Some("int".to_string()) };
    assert_eq!(p.to_string(), "const int& x");
    let p = CppParam { mutable: true, name: "y".to_string(), ty: Some("A".to_string()) };
    assert_eq!(p.to_string(), "A& y");
    let p = CppParam { mutable: false, name: "z".to_string(), ty: None };
    assert_eq!(p.to_string(), "const void& z");
}

#[test]
fn lines_offsets_marks_line_starts() {
    let s = text_of("ab\nc\n");
    assert_eq!(lines_offsets(&s), vec![0, 3, 5]);
    let s = text_of("");
    assert_eq!(lines_offsets(&s), vec![0]);
    let s = text_of("\n\n");
    assert_eq!(lines_offsets(&s), vec![0, 1, 2]);
}

#[test]
fn offset_line_col_resolves_positions() {
    let lines = vec![0usize, 5, 9];
    assert_eq!(offset_line_col(&lines, 0), (1, 0));
    assert_eq!(offset_line_col(&lines, 5), (2, 0));
    assert_eq!(offset_line_col(&lines, 7), (2, 2));
    assert_eq!(offset_line_col(&lines, 9), (3, 0));
    assert_eq!(offset_line_col(&lines, 12), (3, 3));
    assert_eq!(offset_line_col(&lines, 3), (1, 3));
}

#[test]
fn source_map_resolves_spans() {
    let mut sm = SourceMap::new();
    let sp_a = sm.add_file("a.rs".to_string(), text_of("ab\ncd"));
    let sp_b = sm.add_file("b.rs".to_string(), text_of("xyz"));
    assert_eq!((sp_a.lo, sp_a.hi), (0, 5));
    assert_eq!((sp_b.lo, sp_b.hi), (6, 9));

    assert_eq!(sm.filename(Span { lo: 7, hi: 8 }).unwrap(), "b.rs");
    assert_eq!(sm.filename(Span { lo: 0, hi: 5 }).unwrap(), "a.rs");
    let txt: String = sm.source_text(Span { lo: 3, hi: 5 }).unwrap().into_iter().collect();
    assert_eq!(txt, "cd");
    let li = sm.locinfo(Span { lo: 3, hi: 5 }).unwrap();
    assert_eq!(li.path, "a.rs");
    assert_eq!((li.line, li.col), (2, 0));
    let li = sm.locinfo(Span { lo: 7, hi: 9 }).unwrap();
    assert_eq!(li.path, "b.rs");
    assert_eq!((li.line, li.col), (1, 1));

    assert_eq!(sm.filename(Span { lo: 5, hi: 6 }).unwrap_err(), SpanError::NotFound);
    assert_eq!(sm.filename(Span { lo: 2, hi: 1 }).unwrap_err(), SpanError::NegativeLength);
}

#[test]
fn has_flag_tests_single_bits() {
    let m = MetaData { size: 4, align: 4, flags: 0b101 };
    assert!(m.has_flag(0));
    assert!(!m.has_flag(1));
    assert!(m.has_flag(2));
    assert!(!m.has_flag(63));
}

fn meta_block(words_le: bool, records: &[(u64, u64, u64, u64)]) -> Vec<u8> {
    let mut d: Vec<u8> = vec![1, 2, 3];
    d.extend_from_slice(&STRUCT_METADATA_MAGIC);
    d.extend_from_slice(b"0.5.9");
    d.extend_from_slice(&[0u8; 11]);
    let put = |d: &mut Vec<u8>, v: u64| {
        if words_le {
            d.extend_from_slice(&v.to_le_bytes());
        } else {
            d.extend_from_slice(&v.to_be_bytes());
        }
    };
    if words_le {
        d.extend_from_slice(&0xffefu64.to_le_bytes());
    } else {
        d.extend_from_slice(&0xefff_0000_0000_0000u64.to_le_bytes());
    }
    put(&mut d, records.len() as u64);
    for &(h, s, a, f) in records {
        put(&mut d, h);
        put(&mut d, s);
        put(&mut d, a);
        put(&mut d, f);
    }
    d
}

#[test]
fn reads_little_endian_metadata() {
    let d = meta_block(true, &[(10, 4, 4, 1), (11, 8, 8, 2), (10, 16, 8, 4)]);
    let es = read_metadata(&d, &STRUCT_METADATA_MAGIC, b"0.5.9").unwrap();
    assert_eq!(es.len(), 3);
    assert_eq!(es[0].hash, 10);
    assert_eq!(es[1].data.size, 8);
    let tens = metadata_for(&es, 10);
    assert_eq!(tens.len(), 2);
    assert_eq!((tens[0].size, tens[1].size), (4, 16));
    assert_eq!(metadata_for(&es, 99).len(), 0);
}

#[test]
fn reads_big_endian_metadata() {
    let d = meta_block(false, &[(5, 1, 2, 3)]);
    let es = read_metadata(&d, &STRUCT_METADATA_MAGIC, b"0.5.9").unwrap();
    assert_eq!(es.len(), 1);
    assert_eq!((es[0].hash, es[0].data.size, es[0].data.align, es[0].data.flags), (5, 1, 2, 3));
}

#[test]
fn metadata_error_cases() {
    let d = vec![0u8; 64];
    assert_eq!(read_metadata(&d, &STRUCT_METADATA_MAGIC, b"0.5.9").unwrap_err(), MetaError::NoMagic);

    let d = meta_block(true, &[]);
    assert_eq!(read_metadata(&d, &STRUCT_METADATA_MAGIC, b"0.6.0").unwrap_err(), MetaError::VersionMismatch);

    let mut d: Vec<u8> = Vec::new();
    d.extend_from_slice(&STRUCT_METADATA_MAGIC);
    d.extend_from_slice(b"0.5.9");
    d.extend_from_slice(&[0u8; 11]);
    d.extend_from_slice(&7u64.to_le_bytes());
    d.extend_from_slice(&0u64.to_le_bytes());
    assert_eq!(read_metadata(&d, &STRUCT_METADATA_MAGIC, b"0.5.9").unwrap_err(), MetaError::BadEndian);

    let d = meta_block(true, &[(1, 2, 3, 4)]);
    let cut = &d[..d.len() - 8];
    assert_eq!(read_metadata(cut, &STRUCT_METADATA_MAGIC, b"0.5.9").unwrap_err(), MetaError::Truncated);
}

#[test]
fn find_bytes_first_occurrence() {
    let d = vec![1u8, 2, 3, 2, 3, 4];
    assert_eq!(find_bytes(&d, &[2, 3]), Some(1));
    assert_eq!(find_bytes(&d, &[2, 3, 4]), Some(3));
    assert_eq!(find_bytes(&d, &[9]), None);
    assert_eq!(find_bytes(&d, &[]), Some(0));
}

#[test]
fn merror_carries_message() {
    let e = cpp::MError::Other("bad".to_string());
    match e {
        cpp::MError::Other(m) => assert_eq!(m, "bad"),
        cpp::MError::Missing => panic!("wrong variant"),
    }
}
