use dnt::{DntColumn, DntDataType, DntError, DntFileReader, DntFileWriter, DntRow, DntTable, DntValue};

fn id_only(rows: Vec<DntRow>) -> DntTable {
    DntTable { head: vec![DntColumn::id()], body: rows }
}

fn encode(table: &DntTable) -> Result<Vec<u8>, DntError> {
    let mut writer = DntFileWriter::new();
    writer.write(table)?;
    Ok(writer.bytes().clone())
}

fn decode(bytes: &[u8]) -> Result<DntTable, DntError> {
    let mut reader = DntFileReader::new(bytes.to_vec());
    reader.read()?;
    Ok(reader.data().clone())
}

fn sample() -> DntTable {
    DntTable {
        head: vec![
            DntColumn::id(),
            DntColumn::new(String::from("name"), 1).unwrap(),
            DntColumn::new(String::from("level"), 2).unwrap(),
            DntColumn::new(String::from("rate"), 4).unwrap(),
            DntColumn::new(String::from("bonus"), 5).unwrap(),
        ],
        body: vec![
            DntRow {
                values: vec![
                    DntValue::Int32(1),
                    DntValue::String(String::from("caf\u{e9}")),
                    DntValue::Int32(-2),
                    DntValue::Float32(1.5f32.to_bits()),
                    DntValue::Float32((-0.0f32).to_bits()),
                ],
            },
            DntRow {
                values: vec![
                    DntValue::Int32(i32::MIN),
                    DntValue::String(String::new()),
                    DntValue::Int32(i32::MAX),
                    DntValue::Float32(f32::NAN.to_bits()),
                    DntValue::Float32(f32::INFINITY.to_bits()),
                ],
            },
        ],
    }
}

#[test]
fn tag_resolution() {
    assert_eq!(DntDataType::from_u8(1), Ok(DntDataType::String));
    assert_eq!(DntDataType::from_u8(2), Ok(DntDataType::Int32));
    assert_eq!(DntDataType::from_u8(3), Ok(DntDataType::Int32));
    assert_eq!(DntDataType::from_u8(4), Ok(DntDataType::Float32));
    assert_eq!(DntDataType::from_u8(5), Ok(DntDataType::Float32));
}

#[test]
fn tag_resolution_rejects_the_rest() {
    assert_eq!(DntDataType::from_u8(0), Err(DntError::UnknownTypeTag(0)));
    assert_eq!(DntDataType::from_u8(6), Err(DntError::UnknownTypeTag(6)));
    assert_eq!(DntDataType::from_u8(255), Err(DntError::UnknownTypeTag(255)));
    for tag in 6..=255u8 {
        assert_eq!(DntDataType::from_u8(tag), Err(DntError::UnknownTypeTag(tag)));
    }
}

#[test]
fn column_constructor_resolves_its_tag() {
    let c = DntColumn::new(String::from("hp"), 2).unwrap();
    assert_eq!(c.text, "hp");
    assert_eq!(c.data_type, DntDataType::Int32);
    assert_eq!(c.raw_data_type, 2);
    assert_eq!(DntColumn::new(String::from("hp"), 9), Err(DntError::UnknownTypeTag(9)));
}

#[test]
fn id_column_is_an_integer_with_tag_three() {
    let c = DntColumn::id();
    assert_eq!(c.text, "id");
    assert_eq!(c.data_type, DntDataType::Int32);
    assert_eq!(c.raw_data_type, 3);
}

#[test]
fn value_reports_its_type() {
    assert_eq!(DntValue::String(String::from("x")).data_type(), DntDataType::String);
    assert_eq!(DntValue::Int32(7).data_type(), DntDataType::Int32);
    assert_eq!(DntValue::Float32(0).data_type(), DntDataType::Float32);
}

#[test]
fn empty_table_is_sixteen_bytes() {
    let table = id_only(vec![]);
    let bytes = encode(&table).unwrap();
    assert_eq!(bytes, vec![0, 0, 0, 0, 0, 0, 0, 0, 0, 0, 5, b'T', b'H', b'E', b'N', b'D']);
    assert_eq!(bytes.len(), 16);
    assert_eq!(decode(&bytes).unwrap(), table);
}

#[test]
fn empty_text_is_two_zero_bytes() {
    let table = DntTable {
        head: vec![DntColumn::id(), DntColumn::new(String::from("s"), 1).unwrap()],
        body: vec![DntRow { values: vec![DntValue::Int32(1), DntValue::String(String::new())] }],
    };
    let bytes = encode(&table).unwrap();
    let expected: Vec<u8> = vec![
        0, 0, 0, 0, // reserved
        1, 0, // one wire column
        1, 0, 0, 0, // one row
        1, 0, b's', 1, // the column
        1, 0, 0, 0, // id
        0, 0, // the empty text
        5, b'T', b'H', b'E', b'N', b'D',
    ];
    assert_eq!(bytes, expected);
    let back = decode(&bytes).unwrap();
    assert_eq!(back.body[0].values[1], DntValue::String(String::new()));
    assert_eq!(back, table);
}

#[test]
fn unknown_tag_zero_is_rejected() {
    let bytes: Vec<u8> = vec![0, 0, 0, 0, 1, 0, 0, 0, 0, 0, 1, 0, b'a', 0];
    let mut reader = DntFileReader::new(bytes);
    assert_eq!(reader.read(), Err(DntError::UnknownTypeTag(0)));
    assert!(reader.data().head.is_empty());
    assert!(reader.data().body.is_empty());
}

#[test]
fn unknown_tag_six_is_rejected() {
    let bytes: Vec<u8> = vec![0, 0, 0, 0, 1, 0, 0, 0, 0, 0, 1, 0, b'a', 6];
    let mut reader = DntFileReader::new(bytes);
    assert_eq!(reader.read(), Err(DntError::UnknownTypeTag(6)));
    assert!(reader.data().head.is_empty());
    assert!(reader.data().body.is_empty());
}

#[test]
fn unknown_tag_in_a_later_column_is_rejected() {
    let bytes: Vec<u8> = vec![0, 0, 0, 0, 2, 0, 0, 0, 0, 0, 1, 0, b'a', 3, 1, 0, b'b', 77];
    assert_eq!(decode(&bytes), Err(DntError::UnknownTypeTag(77)));
}

#[test]
fn tag_two_is_written_as_tag_two() {
    let bytes: Vec<u8> = vec![
        0, 0, 0, 0, 1, 0, 1, 0, 0, 0, // counts
        2, 0, b'h', b'p', 2, // column hp, tag 2
        7, 0, 0, 0, 9, 0, 0, 0, // row
    ];
    let table = decode(&bytes).unwrap();
    assert_eq!(table.head[1].raw_data_type, 2);
    assert_eq!(table.head[1].data_type, DntDataType::Int32);
    let again = encode(&table).unwrap();
    assert_eq!(again[14], 2);
    assert_eq!(&again[..bytes.len()], &bytes[..]);
}

#[test]
fn every_tag_is_kept() {
    for tag in 1..=5u8 {
        let mut bytes: Vec<u8> = vec![0, 0, 0, 0, 1, 0, 0, 0, 0, 0, 1, 0, b'c'];
        bytes.push(tag);
        let table = decode(&bytes).unwrap();
        assert_eq!(table.head[1].raw_data_type, tag);
        let again = encode(&table).unwrap();
        assert_eq!(again[13], tag);
    }
}

#[test]
fn single_id_row_decodes() {
    let bytes: Vec<u8> = vec![0, 0, 0, 0, 0, 0, 1, 0, 0, 0, 0x41, 0, 0, 0];
    let table = decode(&bytes).unwrap();
    assert_eq!(table.head.len(), 1);
    assert_eq!(table.head[0].text, "id");
    assert_eq!(table.head[0].data_type, DntDataType::Int32);
    assert_eq!(table.head[0].raw_data_type, 3);
    assert_eq!(table.body, vec![DntRow { values: vec![DntValue::Int32(65)] }]);
}

#[test]
fn with_no_wire_column_the_row_follows_the_counts() {
    let bytes: Vec<u8> = vec![
        0, 0, 0, 0, 0, 0, 1, 0, 0, 0, 4, 0, b'n', b'a', b'm', b'e', 1, 0x41, 0, 0, 0,
    ];
    let table = decode(&bytes).unwrap();
    assert_eq!(table.head, vec![DntColumn::id()]);
    assert_eq!(table.body, vec![DntRow { values: vec![DntValue::Int32(0x616e_0004)] }]);
}

#[test]
fn named_column_and_row_decode() {
    let bytes: Vec<u8> = vec![
        0, 0, 0, 0, 1, 0, 1, 0, 0, 0, // counts
        4, 0, b'n', b'a', b'm', b'e', 1, // column
        0x41, 0, 0, 0, // id
        2, 0, b'o', b'k', // text
    ];
    let table = decode(&bytes).unwrap();
    assert_eq!(
        table.head,
        vec![DntColumn::id(), DntColumn::new(String::from("name"), 1).unwrap()]
    );
    assert_eq!(
        table.body,
        vec![DntRow { values: vec![DntValue::Int32(65), DntValue::String(String::from("ok"))] }]
    );
}

#[test]
fn sample_encodes_to_these_bytes() {
    let bytes = encode(&sample()).unwrap();
    let mut expected: Vec<u8> = vec![0, 0, 0, 0, 4, 0, 2, 0, 0, 0];
    expected.extend_from_slice(&[4, 0, b'n', b'a', b'm', b'e', 1]);
    expected.extend_from_slice(&[5, 0, b'l', b'e', b'v', b'e', b'l', 2]);
    expected.extend_from_slice(&[4, 0, b'r', b'a', b't', b'e', 4]);
    expected.extend_from_slice(&[5, 0, b'b', b'o', b'n', b'u', b's', 5]);
    // first row
    expected.extend_from_slice(&[1, 0, 0, 0]);
    expected.extend_from_slice(&[4, 0, b'c', b'a', b'f', 0xe9]);
    expected.extend_from_slice(&[0xfe, 0xff, 0xff, 0xff]);
    expected.extend_from_slice(&[0x00, 0x00, 0xc0, 0x3f]);
    expected.extend_from_slice(&[0x00, 0x00, 0x00, 0x80]);
    // second row
    expected.extend_from_slice(&[0x00, 0x00, 0x00, 0x80]);
    expected.extend_from_slice(&[0, 0]);
    expected.extend_from_slice(&[0xff, 0xff, 0xff, 0x7f]);
    expected.extend_from_slice(&f32::NAN.to_bits().to_le_bytes());
    expected.extend_from_slice(&[0x00, 0x00, 0x80, 0x7f]);
    expected.extend_from_slice(&[5, b'T', b'H', b'E', b'N', b'D']);
    assert_eq!(bytes, expected);
}

#[test]
fn sample_round_trips() {
    let table = sample();
    let bytes = encode(&table).unwrap();
    let back = decode(&bytes).unwrap();
    assert_eq!(back, table);
    match back.body[0].values[3] {
        DntValue::Float32(bits) => assert_eq!(f32::from_bits(bits), 1.5f32),
        _ => panic!("a float was written"),
    }
}

#[test]
fn decoded_bytes_are_written_again() {
    let table = sample();
    let bytes = encode(&table).unwrap();
    let again = encode(&decode(&bytes).unwrap()).unwrap();
    assert_eq!(again, bytes);
}

#[test]
fn reserved_bytes_are_skipped_and_written_as_zero() {
    let bytes: Vec<u8> = vec![0xde, 0xad, 0xbe, 0xef, 0, 0, 1, 0, 0, 0, 9, 0, 0, 0];
    let table = decode(&bytes).unwrap();
    assert_eq!(table, id_only(vec![DntRow { values: vec![DntValue::Int32(9)] }]));
    let again = encode(&table).unwrap();
    assert_eq!(&again[..4], &[0, 0, 0, 0]);
    assert_eq!(&again[4..14], &bytes[4..]);
}

#[test]
fn closing_mark_is_not_needed_to_decode() {
    let table = sample();
    let bytes = encode(&table).unwrap();
    let cut = &bytes[..bytes.len() - 6];
    assert_eq!(decode(cut).unwrap(), table);
    let mut longer = bytes.clone();
    longer.extend_from_slice(&[1, 2, 3]);
    assert_eq!(decode(&longer).unwrap(), table);
}

#[test]
fn sixteen_bit_numbers_are_little_endian() {
    let name: String = std::iter::repeat('x').take(300).collect();
    let table = DntTable {
        head: vec![DntColumn::id(), DntColumn::new(name.clone(), 3).unwrap()],
        body: vec![],
    };
    let bytes = encode(&table).unwrap();
    assert_eq!(&bytes[10..12], &[0x2c, 0x01]);
    assert_eq!(bytes.len(), 10 + 2 + 300 + 1 + 6);
    assert_eq!(decode(&bytes).unwrap().head[1].text, name);
}

#[test]
fn thirty_two_bit_numbers_are_little_endian() {
    let table = id_only(vec![
        DntRow { values: vec![DntValue::Int32(0x0102_0304)] },
        DntRow { values: vec![DntValue::Int32(-1)] },
        DntRow { values: vec![DntValue::Int32(-16_777_216)] },
    ]);
    let bytes = encode(&table).unwrap();
    assert_eq!(&bytes[6..10], &[3, 0, 0, 0]);
    assert_eq!(&bytes[10..14], &[4, 3, 2, 1]);
    assert_eq!(&bytes[14..18], &[0xff, 0xff, 0xff, 0xff]);
    assert_eq!(&bytes[18..22], &[0, 0, 0, 0xff]);
    assert_eq!(decode(&bytes).unwrap(), table);
}

#[test]
fn row_count_uses_all_four_bytes() {
    let rows: Vec<DntRow> =
        (0..70_000).map(|i| DntRow { values: vec![DntValue::Int32(i)] }).collect();
    let table = id_only(rows);
    let bytes = encode(&table).unwrap();
    assert_eq!(&bytes[6..10], &[0x70, 0x11, 0x01, 0x00]);
    assert_eq!(bytes.len(), 10 + 4 * 70_000 + 6);
    assert_eq!(decode(&bytes).unwrap(), table);
}

#[test]
fn each_byte_is_one_character() {
    let bytes: Vec<u8> = vec![
        0, 0, 0, 0, 1, 0, 1, 0, 0, 0, // counts
        3, 0, 0xe9, 0x00, 0xff, 1, // a name of three bytes
        5, 0, 0, 0, // id
        2, 0, 0x80, 0x7f, // a text of two bytes
    ];
    let table = decode(&bytes).unwrap();
    assert_eq!(table.head[1].text, "\u{e9}\u{0}\u{ff}");
    assert_eq!(table.head[1].text.chars().count(), 3);
    assert_eq!(table.body[0].values[1], DntValue::String(String::from("\u{80}\u{7f}")));
    let again = encode(&table).unwrap();
    assert_eq!(&again[4..bytes.len()], &bytes[4..]);
}

#[test]
fn wide_characters_are_narrowed_to_eight_bits() {
    let table = DntTable {
        head: vec![DntColumn::id(), DntColumn::new(String::from("\u{141}\u{100}"), 1).unwrap()],
        body: vec![],
    };
    let bytes = encode(&table).unwrap();
    assert_eq!(&bytes[10..15], &[2, 0, 0x41, 0x00, 1]);
    assert_eq!(decode(&bytes).unwrap().head[1].text, "A\u{0}");
}

#[test]
fn short_input_is_an_unexpected_end() {
    assert_eq!(decode(&[]), Err(DntError::UnexpectedEof));
    assert_eq!(decode(&[0, 0, 0]), Err(DntError::UnexpectedEof));
    assert_eq!(decode(&[0, 0, 0, 0, 0]), Err(DntError::UnexpectedEof));
    assert_eq!(decode(&[0, 0, 0, 0, 0, 0, 0, 0, 0]), Err(DntError::UnexpectedEof));
    assert!(decode(&[0, 0, 0, 0, 0, 0, 0, 0, 0, 0]).is_ok());
}

#[test]
fn every_cut_of_a_table_is_an_unexpected_end() {
    let bytes = encode(&sample()).unwrap();
    let body_end = bytes.len() - 6;
    for cut in 0..body_end {
        assert_eq!(decode(&bytes[..cut]), Err(DntError::UnexpectedEof), "cut at {}", cut);
    }
    assert!(decode(&bytes[..body_end]).is_ok());
}

#[test]
fn missing_row_is_an_unexpected_end() {
    let bytes: Vec<u8> = vec![0, 0, 0, 0, 0, 0, 2, 0, 0, 0, 1, 0, 0, 0];
    assert_eq!(decode(&bytes), Err(DntError::UnexpectedEof));
}

#[test]
fn huge_row_count_is_an_unexpected_end() {
    let bytes: Vec<u8> = vec![0, 0, 0, 0, 0, 0, 0xff, 0xff, 0xff, 0xff, 1, 0, 0, 0];
    assert_eq!(decode(&bytes), Err(DntError::UnexpectedEof));
}

#[test]
fn failed_read_keeps_the_table() {
    let mut reader = DntFileReader::new(vec![0, 0, 0, 0, 0, 0, 1, 0, 0, 0, 1]);
    *reader.data() = sample();
    assert_eq!(reader.read(), Err(DntError::UnexpectedEof));
    assert_eq!(*reader.data(), sample());
}

#[test]
fn read_starts_over_each_time() {
    let bytes = encode(&sample()).unwrap();
    let mut reader = DntFileReader::new(bytes);
    assert_eq!(reader.read(), Ok(()));
    reader.data().body.clear();
    assert_eq!(reader.read(), Ok(()));
    assert_eq!(*reader.data(), sample());
}

#[test]
fn new_reader_holds_an_empty_table() {
    let mut reader = DntFileReader::new(vec![1, 2, 3]);
    assert!(reader.data().head.is_empty());
    assert!(reader.data().body.is_empty());
}

#[test]
fn table_can_be_changed_through_the_reader() {
    let bytes = encode(&id_only(vec![DntRow { values: vec![DntValue::Int32(1)] }])).unwrap();
    let mut reader = DntFileReader::new(bytes);
    reader.read().unwrap();
    reader.data().body.push(DntRow { values: vec![DntValue::Int32(2)] });
    let again = encode(reader.data()).unwrap();
    assert_eq!(&again[6..10], &[2, 0, 0, 0]);
    assert_eq!(&again[10..18], &[1, 0, 0, 0, 2, 0, 0, 0]);
}

#[test]
fn empty_header_is_a_contract_violation() {
    let table = DntTable::new();
    assert_eq!(table.check(), Err(DntError::ContractViolation));
    let mut writer = DntFileWriter::new();
    assert_eq!(writer.write(&table), Err(DntError::ContractViolation));
    assert!(writer.bytes().is_empty());
}

#[test]
fn short_row_is_a_contract_violation() {
    let mut table = sample();
    table.body[1].values.pop();
    assert!(!table.row_encodable(&table.body[1]));
    assert_eq!(encode(&table), Err(DntError::ContractViolation));
}

#[test]
fn long_row_is_a_contract_violation() {
    let mut table = sample();
    table.body[0].values.push(DntValue::Int32(0));
    assert_eq!(encode(&table), Err(DntError::ContractViolation));
}

#[test]
fn value_of_another_type_is_a_contract_violation() {
    let mut table = sample();
    table.body[0].values[2] = DntValue::Float32(0);
    assert_eq!(encode(&table), Err(DntError::ContractViolation));
    let mut table = sample();
    table.body[1].values[0] = DntValue::String(String::from("1"));
    assert_eq!(encode(&table), Err(DntError::ContractViolation));
    let mut table = sample();
    table.body[1].values[1] = DntValue::Int32(1);
    assert_eq!(encode(&table), Err(DntError::ContractViolation));
}

#[test]
fn text_longer_than_its_length_field_is_a_contract_violation() {
    let long: String = std::iter::repeat('a').take(65_536).collect();
    let fits: String = std::iter::repeat('a').take(65_535).collect();
    assert!(!DntValue::String(long.clone()).fits());
    assert!(DntValue::String(fits.clone()).fits());
    let table = DntTable {
        head: vec![DntColumn::id(), DntColumn::new(long, 3).unwrap()],
        body: vec![],
    };
    assert!(!table.head_encodable());
    assert_eq!(encode(&table), Err(DntError::ContractViolation));
    let table = DntTable {
        head: vec![DntColumn::id(), DntColumn::new(fits, 3).unwrap()],
        body: vec![],
    };
    let bytes = encode(&table).unwrap();
    assert_eq!(&bytes[10..12], &[0xff, 0xff]);
    assert_eq!(decode(&bytes).unwrap(), table);
}

#[test]
fn name_of_the_leading_column_is_not_written() {
    let long: String = std::iter::repeat('a').take(70_000).collect();
    let table = DntTable {
        head: vec![DntColumn::new(long, 3).unwrap()],
        body: vec![DntRow { values: vec![DntValue::Int32(3)] }],
    };
    let bytes = encode(&table).unwrap();
    assert_eq!(bytes.len(), 10 + 4 + 6);
    assert_eq!(decode(&bytes).unwrap().head, vec![DntColumn::id()]);
}

#[test]
fn too_many_columns_are_a_contract_violation() {
    let mut head = vec![DntColumn::id()];
    for _ in 0..65_535 {
        head.push(DntColumn::new(String::new(), 3).unwrap());
    }
    let table = DntTable { head: head.clone(), body: vec![] };
    let bytes = encode(&table).unwrap();
    assert_eq!(&bytes[4..6], &[0xff, 0xff]);
    assert_eq!(decode(&bytes).unwrap(), table);
    head.push(DntColumn::new(String::new(), 3).unwrap());
    let table = DntTable { head, body: vec![] };
    assert_eq!(encode(&table), Err(DntError::ContractViolation));
}

#[test]
fn failed_write_writes_nothing() {
    let mut writer = DntFileWriter::new();
    writer.write(&id_only(vec![])).unwrap();
    let mut bad = sample();
    bad.body[0].values.clear();
    assert_eq!(writer.write(&bad), Err(DntError::ContractViolation));
    assert_eq!(writer.bytes().len(), 16);
}

#[test]
fn writes_are_appended() {
    let mut writer = DntFileWriter::new();
    writer.write(&id_only(vec![])).unwrap();
    writer.write(&id_only(vec![DntRow { values: vec![DntValue::Int32(5)] }])).unwrap();
    let bytes = writer.bytes();
    assert_eq!(bytes.len(), 16 + 20);
    assert_eq!(&bytes[16 + 6..16 + 14], &[1, 0, 0, 0, 5, 0, 0, 0]);
}

#[test]
fn check_accepts_what_can_be_written() {
    assert_eq!(sample().check(), Ok(()));
    assert_eq!(id_only(vec![]).check(), Ok(()));
}

#[test]
fn closing_mark_is_found_behind_the_last_row() {
    let bytes = encode(&sample()).unwrap();
    let mut reader = DntFileReader::new(bytes.clone());
    assert!(!reader.at_sentinel());
    reader.read().unwrap();
    assert!(reader.at_sentinel());

    let mut cut = DntFileReader::new(bytes[..bytes.len() - 1].to_vec());
    cut.read().unwrap();
    assert!(!cut.at_sentinel());

    let mut wrong = bytes.clone();
    let last = wrong.len() - 1;
    wrong[last] = b'd';
    let mut reader = DntFileReader::new(wrong);
    reader.read().unwrap();
    assert!(!reader.at_sentinel());
}

#[test]
fn closing_mark_alone_is_found_at_the_start() {
    let reader = DntFileReader::new(vec![5, b'T', b'H', b'E', b'N', b'D']);
    assert!(reader.at_sentinel());
    let reader = DntFileReader::new(vec![5, b'T', b'H', b'E', b'N']);
    assert!(!reader.at_sentinel());
}
