use rustd::journal::catalog::{
    combine_entries, current_message_locale, database_path, encode_database, expand_fields, expand_values, format_id,
    header_value, normalize_locale, output_prefix, parse_id, read_u32, read_u64, source_directories,
    split_headers_body, CatalogDatabase, CatalogError, CatalogKey, CatalogRecord, HEADER_SIZE, ITEM_SIZE,
};
use rustd::journal::catalog_source::{
    file_language, merge_entry, parse_separator, parse_source, source_files, update_database, SourceError, SourceFile,
    SourceFileKind, UpdateError,
};
use rustd::names::NameMap;

const ID: &str = "00112233445566778899aabbccddeeff";
const SECOND: &str = "ffeeddccbbaa99887766554433221100";

#[test]
fn id_round_trip_accepts_uuid_spelling() {
    let id = parse_id("00112233-4455-6677-8899-aabbccddeeff").unwrap();
    assert_eq!(format_id(&id), ID);
}

#[test]
fn source_language_and_binary_database_round_trip() {
    let source = format!(
        "-- {ID}\nSubject: Default subject\nDefined-By: test\n\nDefault body @UNIT@.\n\n-- {ID} de\nSubject: Deutscher Betreff\nDefined-By: test\n\nDeutscher Text.\n\n-- {SECOND}\nSubject: Second\nDefined-By: test\n\nSecond body.\n"
    );
    let (count, bytes) = update_database(&vec![("test.catalog".to_owned(), source)]).unwrap();
    assert_eq!(count, 3);
    let catalog = CatalogDatabase::open(&bytes).unwrap();
    let id = parse_id(ID).unwrap();
    assert!(catalog
        .lookup_locale(&id, Some("de_DE.UTF-8"))
        .unwrap()
        .contains("Deutscher Betreff"));
    assert!(catalog
        .lookup_locale(&id, Some("fr_FR.UTF-8"))
        .unwrap()
        .contains("Default subject"));
    assert!(catalog.lookup(&id, None, Some("de"), Some("fr")).unwrap().contains("Deutscher"));
    assert_eq!(catalog.ids().len(), 2);
}

#[test]
fn field_expansion_matches_catalog_semantics() {
    let mut fields = NameMap::new();
    fields.insert("UNIT".into(), b"demo.service".to_vec());
    assert_eq!(
        expand_fields("Unit @UNIT@, missing @MISSING@, literal @@.", &fields),
        "Unit demo.service, missing MISSING, literal @."
    );
}

#[test]
fn damaged_field_values_are_shown_with_replacements() {
    let mut fields = NameMap::new();
    fields.insert("UNIT".to_owned(), vec![b'a', 0xff, b'b']);
    assert_eq!(expand_fields("<@UNIT@>", &fields), "<a\u{fffd}b>");
    let mut values = NameMap::new();
    values.insert("X".to_owned(), "y".to_owned());
    assert_eq!(expand_values("@X@ and @", &values), "y and @");
}

#[test]
fn duplicate_entry_prefers_new_headers_and_body() {
    let old = "Subject: old\nDefined-By: old\n\nold body\n";
    let new = "Subject: new\n\nnew body\n";
    let combined = combine_entries(new, old);
    assert_eq!(header_value(&combined, "Subject:").as_deref(), Some("new"));
    assert_eq!(header_value(&combined, "Defined-By:").as_deref(), Some("old"));
    assert!(combined.ends_with("\nnew body\n"));
}

fn record(id: &str, language: &str, text: &str) -> CatalogRecord {
    CatalogRecord {
        key: CatalogKey {
            id: parse_id(id).unwrap(),
            language: language.to_owned(),
        },
        text: text.to_owned(),
    }
}

#[test]
fn a_database_reads_back_what_was_written() {
    let records = vec![record(ID, "", "one\n"), record(ID, "de", "eins\n"), record(SECOND, "", "zwei\n")];
    let bytes = encode_database(&records).unwrap();
    assert_eq!(bytes.len(), HEADER_SIZE + 3 * ITEM_SIZE + 5 + 6 + 6);
    let catalog = CatalogDatabase::open(&bytes).unwrap();
    let id = parse_id(ID).unwrap();
    assert_eq!(catalog.lookup_locale(&id, None), Some("one\n"));
    assert_eq!(catalog.lookup_locale(&id, Some("de")), Some("eins\n"));
    assert_eq!(catalog.lookup_locale(&parse_id(SECOND).unwrap(), Some("de")), Some("zwei\n"));
    assert_eq!(catalog.lookup_locale(&[0u8; 16], None), None);
}

#[test]
fn damaged_databases_are_refused() {
    let bytes = encode_database(&vec![record(ID, "", "one\n"), record(SECOND, "", "two\n")]).unwrap();
    let refused = |bytes: &[u8]| CatalogDatabase::open(bytes).unwrap_err();
    assert_eq!(refused(b"short"), CatalogError::InvalidHeader);
    let mut bad = bytes.clone();
    bad[0] = b'X';
    assert_eq!(refused(&bad), CatalogError::InvalidHeader);
    let mut bad = bytes.clone();
    bad[12] = 1;
    assert_eq!(refused(&bad), CatalogError::UnsupportedHeader);
    let mut bad = bytes.clone();
    bad[24..32].copy_from_slice(&100u64.to_le_bytes());
    assert_eq!(refused(&bad), CatalogError::TruncatedTable);
    let mut bad = bytes.clone();
    bad[24..32].copy_from_slice(&u64::MAX.to_le_bytes());
    assert_eq!(refused(&bad), CatalogError::TableOverflows);
    let mut bad = bytes.clone();
    bad[40] = 0xff;
    bad[41] = 0xff;
    assert_eq!(refused(&bad), CatalogError::Unsorted);
    let mut bad = bytes.clone();
    bad[40 + 48..40 + 56].copy_from_slice(&10_000u64.to_le_bytes());
    assert_eq!(refused(&bad), CatalogError::OffsetOutOfBounds);
    let mut bad = bytes.clone();
    bad[40 + 48..40 + 56].copy_from_slice(&u64::MAX.to_le_bytes());
    assert_eq!(refused(&bad), CatalogError::OffsetOverflows);
    let last = bytes.len() - 1;
    assert_eq!(refused(&bytes[..last]), CatalogError::UnterminatedString);
    let mut bad = bytes.clone();
    bad[last - 1] = 0xff;
    assert_eq!(refused(&bad), CatalogError::InvalidText);
    let mut bad = bytes.clone();
    bad[40 + 16] = 0xff;
    assert_eq!(refused(&bad), CatalogError::InvalidLanguage);
}

#[test]
fn numbers_are_little_endian() {
    assert_eq!(read_u32(&[1, 2, 0, 0], 0), Ok(0x0201));
    assert_eq!(read_u32(&[1, 2, 0, 0], 1), Err(CatalogError::TruncatedInteger));
    assert_eq!(read_u32(&[1, 2, 0, 0], usize::MAX), Err(CatalogError::IntegerOverflows));
    assert_eq!(read_u64(&[0, 1, 0, 0, 0, 0, 0, 0], 0), Ok(0x0100));
}

#[test]
fn long_languages_cannot_be_written() {
    let language = "x".repeat(33);
    assert_eq!(
        encode_database(&vec![record(ID, &language, "a")]).unwrap_err(),
        CatalogError::LanguageTooLong
    );
}

#[test]
fn identifiers_must_be_hexadecimal() {
    assert_eq!(parse_id("xyz").unwrap_err(), CatalogError::InvalidId);
    assert_eq!(parse_id("").unwrap_err(), CatalogError::InvalidId);
    assert_eq!(
        parse_id("0011223344556677-8899aabbccddeeff-0").unwrap_err(),
        CatalogError::InvalidId
    );
}

#[test]
fn locales_are_normalized() {
    assert_eq!(normalize_locale(Some("de_DE.UTF-8")).as_deref(), Some("de_DE"));
    assert_eq!(normalize_locale(Some("C")), None);
    assert_eq!(normalize_locale(None), None);
    assert_eq!(current_message_locale(None, Some("fr"), Some("de")), Some("fr"));
    assert_eq!(current_message_locale(None, None, Some("de")), Some("de"));
    assert_eq!(output_prefix(None, None, Some("C")), "--");
}

#[test]
fn places_are_configurable() {
    assert_eq!(database_path(None), "/var/lib/systemd/catalog/database");
    assert_eq!(database_path(Some("/tmp/db")), "/tmp/db");
    assert_eq!(source_directories(Some("/a")), vec!["/a"]);
    assert_eq!(source_directories(Some("")), source_directories(None));
    assert!(!source_directories(None).is_empty());
}

#[test]
fn headers_end_at_the_first_empty_line() {
    assert_eq!(
        split_headers_body("Subject: a\n\nbody\n"),
        ("Subject: a\n".to_owned(), "\nbody\n".to_owned())
    );
    assert_eq!(header_value("Subject: a\n\nDefined-By: b\n", "Defined-By:"), None);
}

#[test]
fn sources_are_refused_for_a_reason() {
    let parsed = |content: &str| parse_source("test.catalog", content);
    assert!(matches!(parsed("text\n").unwrap_err(), SourceError::PayloadBeforeId { line: 1 }));
    assert!(matches!(
        parsed(&format!("-- {ID}\n")).unwrap_err(),
        SourceError::NoPayload { line: None }
    ));
    assert!(matches!(
        parsed(&format!("-- {ID}\n\n-- {SECOND}\nx\n")).unwrap_err(),
        SourceError::NoPayload { line: Some(_) }
    ));
    let refused = update_database(&vec![("a.catalog".to_owned(), "text\n".to_owned())]);
    assert!(matches!(refused, Err(UpdateError::Source(_))));
}

#[test]
fn file_names_carry_a_language() {
    assert_eq!(file_language("systemd.de.catalog").as_deref(), Some("de"));
    assert_eq!(file_language("systemd.catalog"), None);
    let records = parse_source("systemd.de.catalog", &format!("-- {ID}\nSubject: x\n")).unwrap();
    assert_eq!(records.len(), 1);
    assert_eq!(records[0].key.language, "de");
    assert_eq!(parse_separator("no separator", None).unwrap(), None);
    let (id, language) = parse_separator(&format!("-- {ID} fr"), Some("de")).unwrap().unwrap();
    assert_eq!(format_id(&id), ID);
    assert_eq!(language.as_deref(), Some("fr"));
}

#[test]
fn entries_of_one_key_are_merged() {
    let mut records = vec![record(ID, "", "Subject: old\nDefined-By: old\n\nold\n")];
    merge_entry(&mut records, record(ID, "", "Subject: new\n\nnew\n"));
    assert_eq!(records.len(), 1);
    assert_eq!(header_value(&records[0].text, "Subject:").as_deref(), Some("new"));
    merge_entry(&mut records, record(SECOND, "", "x\n"));
    assert_eq!(records.len(), 2);
}

#[test]
fn earlier_directories_hide_later_ones() {
    let file = |name: &str, path: &str, kind: SourceFileKind| SourceFile {
        name: name.to_owned(),
        path: path.to_owned(),
        kind,
    };
    let found = source_files(&vec![
        vec![
            file("b.catalog", "/1/b", SourceFileKind::Usable),
            file("m.catalog", "/1/m", SourceFileKind::Masked),
        ],
        vec![
            file("a.catalog", "/2/a", SourceFileKind::Usable),
            file("b.catalog", "/2/b", SourceFileKind::Usable),
            file("m.catalog", "/2/m", SourceFileKind::Usable),
            file("x", "/2/x", SourceFileKind::Other),
        ],
    ]);
    assert_eq!(found, vec!["/2/a", "/1/b"]);
}
