use karaoke::songs::{
    build_rowid_query, parse_song_ids, song_document, song_from_document, song_ids_query,
    CatalogField, DocumentError, FieldValue, Pagination, Song, StoredDocument,
};
use karaoke::text::parse_i64;

fn bohemian() -> Song {
    Song {
        row_id: 20,
        title: "Bohemian Rhapsody".to_string(),
        artist: "Queen".to_string(),
        language: Some("English".to_string()),
        year: Some(1975),
        duration_ms: 355_000,
        lyrics: None,
        duet: false,
        cover_path: Some("Queen/cover.jpg".to_string()),
        audio_path: "Queen/song.mp3".to_string(),
    }
}

fn full_document() -> StoredDocument {
    StoredDocument {
        row_id: Some(20),
        title: Some("Bohemian Rhapsody".to_string()),
        artist: Some("Queen".to_string()),
        language: None,
        year: Some("1975".to_string()),
        duration_ms: Some(355_000),
        lyrics: None,
        duet: None,
        cover: None,
        audio: None,
    }
}

#[test]
fn rowid_query_joins_terms() {
    assert_eq!(build_rowid_query(&vec![10, 30]), "rowid:10 OR rowid:30");
    assert_eq!(build_rowid_query(&vec![-5]), "rowid:-5");
    assert_eq!(build_rowid_query(&vec![]), "");
}

#[test]
fn song_id_lists() {
    assert_eq!(song_ids_query("1,2,3").as_deref(), Some("rowid:1 OR rowid:2 OR rowid:3"));
    assert_eq!(song_ids_query("42").as_deref(), Some("rowid:42"));
    assert_eq!(song_ids_query("1,x"), None);
    assert_eq!(song_ids_query("1,,2"), None);
    assert_eq!(song_ids_query(""), None);
    assert_eq!(parse_song_ids("7,-8"), Some(vec![7, -8]));
}

#[test]
fn integers_parse_like_std() {
    for s in ["0", "123", "+7", "-7", "007", "9223372036854775807", "-9223372036854775808"] {
        assert_eq!(parse_i64(s), s.parse::<i64>().ok(), "{s}");
    }
    for s in ["", "-", "+", "1a", "9223372036854775808", "-9223372036854775809", " 1", "1 "] {
        assert_eq!(parse_i64(s), None, "{s}");
    }
}

#[test]
fn page_size_is_capped() {
    let p = Pagination { offset: 0, per_page: 500, query: None };
    assert_eq!(p.page_size(), 100);
    let p = Pagination { offset: 3, per_page: 2, query: Some("queen".to_string()) };
    assert_eq!(p.page_size(), 2);
}

#[test]
fn document_of_song_lists_present_fields() {
    let fields = song_document(1, &bohemian());
    let names: Vec<CatalogField> = fields.iter().map(|(f, _)| *f).collect();
    assert_eq!(
        names,
        vec![
            CatalogField::RowId,
            CatalogField::Order,
            CatalogField::Title,
            CatalogField::Artist,
            CatalogField::Duration,
            CatalogField::Language,
            CatalogField::Year,
            CatalogField::Duet,
            CatalogField::Cover,
            CatalogField::Audio,
        ]
    );
    assert!(matches!(&fields[6].1, FieldValue::Text(t) if t == "1975"));
    assert!(matches!(&fields[1].1, FieldValue::Unsigned(1)));
    assert!(matches!(&fields[0].1, FieldValue::Signed(20)));
}

#[test]
fn document_reads_back_as_song() {
    let song = song_from_document(full_document()).unwrap();
    assert_eq!(song.row_id, 20);
    assert_eq!(song.title, "Bohemian Rhapsody");
    assert_eq!(song.year, Some(1975));
    assert_eq!(song.duration_ms, 355_000);
    assert!(!song.duet);
    assert_eq!(song.audio_path, "");
}

#[test]
fn missing_fields_are_errors() {
    let mut d = full_document();
    d.row_id = None;
    assert_eq!(song_from_document(d).err(), Some(DocumentError::MissingField(CatalogField::RowId)));
    let mut d = full_document();
    d.title = None;
    assert_eq!(song_from_document(d).err(), Some(DocumentError::MissingField(CatalogField::Title)));
    let mut d = full_document();
    d.artist = None;
    assert_eq!(song_from_document(d).err(), Some(DocumentError::MissingField(CatalogField::Artist)));
    let mut d = full_document();
    d.duration_ms = None;
    assert_eq!(song_from_document(d).err(), Some(DocumentError::MissingField(CatalogField::Duration)));
    let mut d = full_document();
    d.year = Some("nineteen".to_string());
    assert_eq!(song_from_document(d).err(), Some(DocumentError::InvalidYear));
}
