use fast_beam::atoms::decode_atoms;
use fast_beam::chunk::{decode_chunk, read_records, resolve};
use fast_beam::envelope::{index_chunks, read_entry};
use fast_beam::scan::{Request, Scan};
use fast_beam::wire::{
    read_bytes_at, read_id_at, read_slice_at, read_span, read_u32_at, read_u8_at, remaining,
};
use fast_beam::{
    BeamFileError, Chunk, ChunkIndex, ExpTChunk, Export, Failure, Id, ImpTChunk, Import,
    IndexEntry, Interner, NaiveInterner,
};

fn failure<T>(result: Result<T, BeamFileError>) -> Failure {
    match result {
        Ok(_) => panic!("expected a failure"),
        Err(error) => error.failure(),
    }
}

#[test]
fn id_is_its_four_bytes() {
    let id = Id::from(*b"AtU8");
    assert_eq!(id.bytes(), [65, 116, 85, 56]);
    assert_eq!(id, Id([65, 116, 85, 56]));
    assert_ne!(id, Id::from(*b"Atom"));
    assert_ne!(id, Id::from(*b"AtU9"));
    assert_ne!(id, Id::from(*b"BtU8"));
}

#[test]
fn big_endian_words_are_read_most_significant_byte_first() {
    let data = [0xff, 0x00, 0x00, 0x01, 0x0b, 0x12, 0x34, 0x56, 0x78];
    assert_eq!(read_u32_at(&data, 1).unwrap(), 267);
    assert_eq!(read_u32_at(&data, 5).unwrap(), 0x1234_5678);
    assert_eq!(read_u32_at(&data, 0).unwrap(), 0xff00_0001);
    assert_eq!(read_u32_at(&[0xff, 0xff, 0xff, 0xff], 0).unwrap(), u32::MAX);
}

#[test]
fn reads_past_the_end_fail_as_a_stream_does() {
    let data = [1, 2, 3, 4, 5];
    assert_eq!(read_u32_at(&data, 2).unwrap_err().kind(), std::io::ErrorKind::UnexpectedEof);
    assert_eq!(read_u32_at(&data, 9).unwrap_err().kind(), std::io::ErrorKind::UnexpectedEof);
    assert_eq!(read_u8_at(&data, 5).unwrap_err().kind(), std::io::ErrorKind::UnexpectedEof);
    assert_eq!(read_id_at(&data, 2).unwrap_err().kind(), std::io::ErrorKind::UnexpectedEof);
    assert_eq!(read_bytes_at(&data, 3, 3).unwrap_err().kind(), std::io::ErrorKind::UnexpectedEof);
    assert_eq!(read_slice_at(&data, 6, 1).unwrap_err().kind(), std::io::ErrorKind::UnexpectedEof);
    assert_eq!(
        read_bytes_at(&data, usize::MAX, usize::MAX).unwrap_err().kind(),
        std::io::ErrorKind::UnexpectedEof
    );
}

#[test]
fn reads_within_the_buffer_return_its_bytes() {
    let data = [1, 2, 3, 4, 5];
    assert_eq!(read_u8_at(&data, 0).unwrap(), 1);
    assert_eq!(read_u8_at(&data, 4).unwrap(), 5);
    assert_eq!(read_id_at(&data, 1).unwrap(), Id([2, 3, 4, 5]));
    assert_eq!(read_bytes_at(&data, 3, 2).unwrap(), vec![4, 5]);
    assert_eq!(read_slice_at(&data, 1, 3).unwrap(), &[2, 3, 4]);
    assert_eq!(read_bytes_at(&data, 5, 0).unwrap(), Vec::<u8>::new());
    assert_eq!(read_bytes_at(&data, 77, 0).unwrap(), Vec::<u8>::new());
    assert_eq!(remaining(&data, 2), &[3, 4, 5]);
    assert_eq!(remaining(&data, 5), &[] as &[u8]);
    assert_eq!(remaining(&data, 6), &[] as &[u8]);
}

#[test]
fn index_keeps_the_last_entry_of_an_id() {
    let mut index = ChunkIndex::new();
    assert!(index.ids().is_empty());
    assert_eq!(index.get(Id::from(*b"Code")), None);
    index.insert(Id::from(*b"Code"), IndexEntry { position: 20, len: 4 });
    index.insert(Id::from(*b"Line"), IndexEntry { position: 32, len: 1 });
    index.insert(Id::from(*b"Code"), IndexEntry { position: 44, len: 3 });
    assert_eq!(index.get(Id::from(*b"Code")), Some(IndexEntry { position: 44, len: 3 }));
    assert_eq!(index.get(Id::from(*b"Line")), Some(IndexEntry { position: 32, len: 1 }));
    assert_eq!(index.get(Id::from(*b"Attr")), None);
    let mut ids = index.ids();
    ids.sort();
    assert_eq!(ids, vec![Id::from(*b"Code"), Id::from(*b"Line")]);
}

#[test]
fn entries_point_past_the_header_and_skip_the_padding() {
    let mut data = b"FOR1\0\0\0\x28BEAM".to_vec();
    data.extend_from_slice(b"Code\0\0\0\x05\x01\x02\x03\x04\x05\0\0\0");
    data.extend_from_slice(b"StrT\0\0\0\0");
    data.extend_from_slice(b"Line\0\0\0\x04\x09\x09\x09\x09");
    assert_eq!(data.len(), 0x28 + 8);
    let index = index_chunks(&data).unwrap();
    assert_eq!(index.ids().len(), 3);
    assert_eq!(index.get(Id::from(*b"Code")), Some(IndexEntry { position: 20, len: 5 }));
    assert_eq!(index.get(Id::from(*b"StrT")), Some(IndexEntry { position: 36, len: 0 }));
    assert_eq!(index.get(Id::from(*b"Line")), Some(IndexEntry { position: 44, len: 4 }));
    let code = index.get(Id::from(*b"Code")).unwrap();
    assert_eq!(read_entry(&data, &code).unwrap(), vec![1, 2, 3, 4, 5]);
}

#[test]
fn entry_that_points_past_the_end_cannot_be_read() {
    let data = [1, 2, 3, 4];
    assert_eq!(failure(read_entry(&data, &IndexEntry { position: 2, len: 3 })), Failure::Io);
    assert_eq!(failure(read_entry(&data, &IndexEntry { position: 9, len: 1 })), Failure::Io);
    assert_eq!(
        failure(read_entry(&data, &IndexEntry { position: u64::MAX, len: u64::MAX })),
        Failure::Io
    );
    assert_eq!(read_entry(&data, &IndexEntry { position: 2, len: 2 }).unwrap(), vec![3, 4]);
    assert_eq!(read_entry(&data, &IndexEntry { position: 9, len: 0 }).unwrap(), Vec::<u8>::new());
}

#[test]
fn chunk_length_beyond_the_data_is_indexed_as_declared() {
    let mut data = b"FOR1\0\0\0\x40BEAM".to_vec();
    data.extend_from_slice(b"Code\x01\x02\x03\x04\x01\x02");
    let index = index_chunks(&data).unwrap();
    assert_eq!(
        index.get(Id::from(*b"Code")),
        Some(IndexEntry { position: 20, len: 0x0102_0304 })
    );
}

#[test]
fn naive_interner_allocates_the_name() {
    let interner = NaiveInterner::default();
    assert_eq!(interner.intern("erlang"), "erlang".to_string());
    assert_eq!(interner.intern(""), String::new());
    assert_eq!(
        interner.intern_many(&["a", "bc", "a"]),
        vec!["a".to_string(), "bc".to_string(), "a".to_string()]
    );
    assert_eq!(interner.intern_many(&[]), Vec::<String>::new());
}

#[test]
fn atom_names_keep_their_order_and_their_text() {
    let names = ["test", "", "h\u{e9}llo", "\u{65e5}\u{672c}\u{8a9e}", "test"];
    let mut raw = (names.len() as u32).to_be_bytes().to_vec();
    for name in names {
        raw.push(name.len() as u8);
        raw.extend_from_slice(name.as_bytes());
    }
    let atoms = decode_atoms(&raw, &NaiveInterner).unwrap();
    assert_eq!(atoms, names.iter().map(|name| name.to_string()).collect::<Vec<_>>());
    let mut again = (atoms.len() as u32).to_be_bytes().to_vec();
    for atom in &atoms {
        again.push(atom.len() as u8);
        again.extend_from_slice(atom.as_bytes());
    }
    assert_eq!(again, raw);
}

#[test]
fn atom_table_ignores_what_follows_its_entries() {
    let raw = [0, 0, 0, 1, 2, b'o', b'k', 0xff, 0xff];
    assert_eq!(decode_atoms(&raw, &NaiveInterner).unwrap(), vec!["ok".to_string()]);
    assert_eq!(decode_atoms(&[0, 0, 0, 0], &NaiveInterner).unwrap(), Vec::<String>::new());
}

#[test]
fn atom_table_failures() {
    assert_eq!(failure(decode_atoms(&[0, 0, 1], &NaiveInterner)), Failure::Io);
    assert_eq!(failure(decode_atoms(&[0, 0, 0, 1], &NaiveInterner)), Failure::Io);
    assert_eq!(failure(decode_atoms(&[0, 0, 0, 1, 3, b'a', b'b'], &NaiveInterner)), Failure::Io);
    assert_eq!(
        failure(decode_atoms(&[0, 0, 0, 2, 1, b'a', 2, 0xc3, 0x28], &NaiveInterner)),
        Failure::InvalidAtom
    );
    assert_eq!(
        failure(decode_atoms(&[0, 0, 0, 2, 1, 0x80, 9, b'a'], &NaiveInterner)),
        Failure::InvalidAtom
    );
    assert_eq!(
        failure(decode_atoms(&[0xff, 0xff, 0xff, 0xff, 1, b'a'], &NaiveInterner)),
        Failure::Io
    );
    assert!(matches!(
        decode_atoms(&[0, 0, 0, 1, 1, 0xff], &NaiveInterner),
        Err(BeamFileError::InvalidAtom(_))
    ));
}

fn words(words: &[u32]) -> Vec<u8> {
    words.iter().flat_map(|word| word.to_be_bytes()).collect()
}

#[test]
fn records_are_three_words_each() {
    let raw = words(&[2, 3, 4, 1, 3, 4, 2]);
    assert_eq!(read_records(&raw, 2, 4).unwrap(), vec![(3, 4, 1), (3, 4, 2)]);
    assert_eq!(read_records(&raw, 0, 0).unwrap(), vec![(3, 4, 1), (3, 4, 2)]);
    assert_eq!(read_records(&words(&[0, 7]), 2, 4).unwrap(), vec![]);
}

#[test]
fn records_fail_at_their_first_faulty_word() {
    assert_eq!(failure(read_records(&[0, 0], 2, 4)), Failure::Io);
    assert_eq!(failure(read_records(&words(&[1, 3, 4]), 2, 4)), Failure::Io);
    assert_eq!(failure(read_records(&words(&[2, 3, 4, 1]), 2, 4)), Failure::Io);
    assert_eq!(
        failure(read_records(&words(&[1, 5, 4, 1]), 2, 4)),
        Failure::InvalidAtomReference(5)
    );
    assert_eq!(
        failure(read_records(&words(&[1, 4, 0, 1]), 2, 4)),
        Failure::InvalidAtomReference(0)
    );
    assert_eq!(failure(read_records(&words(&[1, 9]), 1, 4)), Failure::InvalidAtomReference(9));
    assert_eq!(failure(read_records(&words(&[1, 4, 9]), 2, 4)), Failure::InvalidAtomReference(9));
    assert_eq!(failure(read_records(&words(&[1, 4, 9]), 1, 4)), Failure::Io);
    assert_eq!(
        failure(read_records(&words(&[2, 1, 1, 1, 1, 7]), 2, 4)),
        Failure::InvalidAtomReference(7)
    );
    assert_eq!(read_records(&words(&[1, 4, 9, 0]), 1, 4).unwrap(), vec![(4, 9, 0)]);
    assert_eq!(
        failure(read_records(&words(&[1, 1, 1, 1]), 2, 0)),
        Failure::InvalidAtomReference(1)
    );
}

#[test]
fn reference_one_is_the_first_atom() {
    let atoms = ["first".to_string(), "second".to_string(), "third".to_string()];
    assert_eq!(resolve(&atoms, 1).unwrap(), "first");
    assert_eq!(resolve(&atoms, 3).unwrap(), "third");
    assert_eq!(failure(resolve(&atoms, 0)), Failure::InvalidAtomReference(0));
    assert_eq!(failure(resolve(&atoms, 4)), Failure::InvalidAtomReference(4));
    assert_eq!(failure(resolve::<String>(&[], 1)), Failure::InvalidAtomReference(1));
    let imports = ImpTChunk::<String>::decode(&words(&[1, 1, 2, 0]), &atoms).unwrap();
    assert_eq!(
        imports.imports,
        vec![Import { module: "first".to_string(), function: "second".to_string(), arity: 0 }]
    );
    let exports = ExpTChunk::<String>::decode(&words(&[1, 1, 2, 3]), &atoms).unwrap();
    assert_eq!(
        exports.exports,
        vec![Export { function: "first".to_string(), arity: 2, label: 3 }]
    );
}

#[test]
fn typed_chunks_treat_only_their_leading_words_as_references() {
    let atoms = ["only".to_string()];
    let exports = ExpTChunk::<String>::decode(&words(&[1, 1, 77, 0]), &atoms).unwrap();
    assert_eq!(
        exports.exports,
        vec![Export { function: "only".to_string(), arity: 77, label: 0 }]
    );
    assert_eq!(
        failure(ImpTChunk::<String>::decode(&words(&[1, 1, 77, 0]), &atoms)),
        Failure::InvalidAtomReference(77)
    );
    assert_eq!(
        failure(ImpTChunk::<String>::decode(&words(&[1, 2]), &atoms)),
        Failure::InvalidAtomReference(2)
    );
    assert_eq!(failure(ExpTChunk::<String>::decode(&words(&[1, 1, 1]), &atoms)), Failure::Io);
    assert_eq!(failure(ExpTChunk::<String>::decode(&[], &atoms)), Failure::Io);
    assert_eq!(ImpTChunk::<String>::decode(&words(&[0]), &[]).unwrap().imports, vec![]);
}

#[test]
fn failure_is_the_error_without_its_payload() {
    assert_eq!(BeamFileError::AtomsNotIndexed.failure(), Failure::AtomsNotIndexed);
    assert_eq!(
        BeamFileError::MissingChunk(Id::from(*b"Code")).failure(),
        Failure::MissingChunk(Id::from(*b"Code"))
    );
    assert_eq!(
        BeamFileError::UnexpectedMagicNumber(Id::from(*b"RIFF")).failure(),
        Failure::UnexpectedMagicNumber(Id::from(*b"RIFF"))
    );
    assert_eq!(
        BeamFileError::UnexpectedFormType(Id::from(*b"WAVE")).failure(),
        Failure::UnexpectedFormType(Id::from(*b"WAVE"))
    );
    assert_eq!(
        BeamFileError::InvalidAtomReference(9).failure(),
        Failure::InvalidAtomReference(9)
    );
    let io = std::io::Error::from(std::io::ErrorKind::UnexpectedEof);
    assert_eq!(BeamFileError::Io(io).failure(), Failure::Io);
    let utf8 = std::str::from_utf8(&[0xff]).unwrap_err();
    assert_eq!(BeamFileError::InvalidAtom(utf8).failure(), Failure::InvalidAtom);
}

#[test]
fn id_is_shown_as_a_byte_string_where_it_is_text() {
    assert_eq!(Id::from(*b"FOR1").describe(), "b\"FOR1\"");
    assert_eq!(Id::from(*b"AtU8").describe(), "b\"AtU8\"");
    assert_eq!(Id::from(*b"a\"\n\0").describe(), "b\"a\\\"\\n\\0\"");
    assert_eq!(Id::from([255, 0, 1, 2]).describe(), "[255, 0, 1, 2]");
    assert_eq!(Id::from([0xc3, 0x28, 65, 66]).describe(), "[195, 40, 65, 66]");
}

#[test]
fn bytes_that_are_no_text_are_shown_as_numbers() {
    assert_eq!(Id::from([255, 7, 42, 100]).describe(), "[255, 7, 42, 100]");
    assert_eq!(Id::from([128, 0, 9, 10]).describe(), "[128, 0, 9, 10]");
    assert_eq!(Id::from([200, 199, 99, 101]).describe(), "[200, 199, 99, 101]");
}

fn small_container() -> Vec<u8> {
    let mut data = b"FOR1\0\0\0\x28BEAM".to_vec();
    data.extend_from_slice(b"Code\0\0\0\x05\x01\x02\x03\x04\x05\0\0\0");
    data.extend_from_slice(b"StrT\0\0\0\0");
    data.extend_from_slice(b"Line\0\0\0\x04\x09\x09\x09\x09");
    data
}

fn run_scan(data: &[u8]) -> (Result<ChunkIndex, BeamFileError>, Vec<Request>) {
    let mut asked = Vec::new();
    let mut scan = Scan::new();
    while let Some(want) = scan.request() {
        asked.push(want);
        scan = match scan.advance(read_span(data, want.position, want.len)) {
            Ok(next) => next,
            Err(error) => return (Err(error), asked),
        };
    }
    (Ok(scan.into_index()), asked)
}

#[test]
fn scan_asks_for_the_envelope_and_the_chunk_headers_only() {
    let data = small_container();
    let (index, asked) = run_scan(&data);
    assert_eq!(
        asked,
        vec![
            Request { position: 0, len: 4 },
            Request { position: 4, len: 4 },
            Request { position: 8, len: 4 },
            Request { position: 12, len: 8 },
            Request { position: 28, len: 8 },
            Request { position: 36, len: 8 },
        ]
    );
    assert_eq!(asked.iter().map(|want| want.len).sum::<u64>(), 12 + 8 * 3);
    let index = index.unwrap();
    let direct = index_chunks(&data).unwrap();
    let mut ids = index.ids();
    ids.sort();
    let mut direct_ids = direct.ids();
    direct_ids.sort();
    assert_eq!(ids, direct_ids);
    for id in ids {
        assert_eq!(index.get(id), direct.get(id));
    }
    assert_eq!(index.get(Id::from(*b"Line")), Some(IndexEntry { position: 44, len: 4 }));
}

#[test]
fn scan_stops_at_the_failure_it_meets_first() {
    let (index, asked) = run_scan(b"FOR2\0\0\0\x04BEAM");
    assert_eq!(failure(index), Failure::UnexpectedMagicNumber(Id::from(*b"FOR2")));
    assert_eq!(asked.len(), 1);
    let (index, asked) = run_scan(b"FOR1\0\0\0\x04BEAT");
    assert_eq!(failure(index), Failure::UnexpectedFormType(Id::from(*b"BEAT")));
    assert_eq!(asked.len(), 3);
    let (index, asked) = run_scan(b"FOR1\0\0");
    assert_eq!(failure(index), Failure::Io);
    assert_eq!(asked.len(), 2);
    let (index, asked) = run_scan(b"FOR1\0\0\0\x04BEAM");
    assert!(index.unwrap().ids().is_empty());
    assert_eq!(asked.len(), 3);
}

#[test]
fn scan_takes_a_failed_or_short_read_as_an_io_failure() {
    let denied = std::io::Error::from(std::io::ErrorKind::PermissionDenied);
    match Scan::new().advance(Err(denied)) {
        Err(BeamFileError::Io(error)) => {
            assert_eq!(error.kind(), std::io::ErrorKind::PermissionDenied)
        }
        _ => panic!("expected the error of the read"),
    }
    match Scan::new().advance(Ok(b"FOR".to_vec())) {
        Err(BeamFileError::Io(error)) => assert_eq!(error.kind(), std::io::ErrorKind::UnexpectedEof),
        _ => panic!("expected an I/O error"),
    }
    let scan = Scan::new().advance(Ok(b"FOR1 and more".to_vec())).unwrap();
    assert_eq!(scan.request(), Some(Request { position: 4, len: 4 }));
    let scan = scan.advance(Ok(vec![0, 0, 0, 12])).unwrap();
    let scan = scan.advance(Ok(b"BEAM".to_vec())).unwrap();
    assert_eq!(scan.request(), None);
    let scan = scan.advance(Ok(vec![])).unwrap();
    assert_eq!(scan.request(), None);
    assert!(scan.into_index().ids().is_empty());
}

#[test]
fn stream_reads_may_start_beyond_the_end() {
    let data = [1, 2, 3, 4];
    assert_eq!(read_span(&data, 1, 2).unwrap(), vec![2, 3]);
    assert_eq!(read_span(&data, 9, 0).unwrap(), Vec::<u8>::new());
    assert_eq!(read_span(&data, 3, 2).unwrap_err().kind(), std::io::ErrorKind::UnexpectedEof);
    assert_eq!(
        read_span(&data, u64::MAX, u64::MAX).unwrap_err().kind(),
        std::io::ErrorKind::UnexpectedEof
    );
}

#[test]
fn index_locates_chunks_and_the_atom_table() {
    let mut index = ChunkIndex::new();
    assert_eq!(failure(index.locate_atoms()), Failure::MissingChunk(Id::from(*b"Atom")));
    index.insert(Id::from(*b"Atom"), IndexEntry { position: 20, len: 4 });
    assert_eq!(index.locate_atoms().unwrap(), IndexEntry { position: 20, len: 4 });
    index.insert(Id::from(*b"AtU8"), IndexEntry { position: 32, len: 6 });
    assert_eq!(index.locate_atoms().unwrap(), IndexEntry { position: 32, len: 6 });
    assert_eq!(index.locate(Id::from(*b"Atom")).unwrap(), IndexEntry { position: 20, len: 4 });
    assert_eq!(
        failure(index.locate(Id::from(*b"Code"))),
        Failure::MissingChunk(Id::from(*b"Code"))
    );
}

#[test]
fn chunk_without_an_atom_table_is_not_decoded() {
    let raw = words(&[1, 1, 2, 3]);
    assert_eq!(
        failure(decode_chunk::<ExpTChunk<String>>(&raw, None)),
        Failure::AtomsNotIndexed
    );
    let atoms = ["only".to_string()];
    let exports = decode_chunk::<ExpTChunk<String>>(&raw, Some(&atoms)).unwrap();
    assert_eq!(
        exports.exports,
        vec![Export { function: "only".to_string(), arity: 2, label: 3 }]
    );
}
