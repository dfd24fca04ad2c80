//! The song catalog and its search index.
use crate::text::{decimal, parse_i64, parsed_i64, push_char, push_decimal};
use vstd::prelude::*;

verus! {

/// A catalog entry. Durations are whole milliseconds.
pub struct Song {
    pub row_id: i64,
    pub title: String,
    pub artist: String,
    pub language: Option<String>,
    pub year: Option<i64>,
    pub duration_ms: u64,
    pub lyrics: Option<String>,
    pub duet: bool,
    pub cover_path: Option<String>,
    pub audio_path: String,
}

/// The largest page that a paginated browse returns.
pub const MAX_PER_PAGE: u32 = 100;

/// A request for one page of the catalog, optionally filtered by a query.
pub struct Pagination {
    pub offset: u32,
    pub per_page: u32,
    pub query: Option<String>,
}

impl Pagination {
    /// The page size actually served: `per_page`, at most `MAX_PER_PAGE`.
    pub fn page_size(&self) -> (r: u32)
        ensures
            r == if self.per_page <= MAX_PER_PAGE { self.per_page } else { MAX_PER_PAGE },
    {
        if self.per_page <= MAX_PER_PAGE {
            self.per_page
        } else {
            MAX_PER_PAGE
        }
    }
}

/// The query term that matches the song with row id `row`: `rowid:<row>`.
pub open spec fn rowid_term(row: i64) -> Seq<char> {
    "rowid:"@ + decimal(row as int)
}

/// A query matching any of `rows`: their terms joined by ` OR `.
pub open spec fn rowid_query(rows: Seq<i64>) -> Seq<char>
    decreases rows.len(),
{
    if rows.len() == 0 {
        Seq::empty()
    } else if rows.len() == 1 {
        rowid_term(rows[0])
    } else {
        rowid_query(rows.drop_last()) + " OR "@ + rowid_term(rows.last())
    }
}

/// Builds the query that matches exactly the songs with the given row ids.
pub fn build_rowid_query(rows: &Vec<i64>) -> (q: String)
    ensures
        q@ == rowid_query(rows@),
{
    let mut q = String::new();
    let mut i: usize = 0;
    while i < rows.len()
        invariant
            i <= rows@.len(),
            q@ == rowid_query(rows@.subrange(0, i as int)),
        decreases rows@.len() - i,
    {
        let ghost before = q@;
        if i > 0 {
            q.append(" OR ");
        }
        q.append("rowid:");
        push_decimal(&mut q, rows[i]);
        proof {
            let next = rows@.subrange(0, i as int + 1);
            assert(next.drop_last() =~= rows@.subrange(0, i as int));
            assert(next.last() == rows@[i as int]);
            if i == 0 {
                assert(q@ =~= rowid_term(rows@[0]));
            } else {
                assert(q@ =~= before + " OR "@ + rowid_term(rows@[i as int]));
            }
        }
        i = i + 1;
    }
    assert(rows@.subrange(0, rows@.len() as int) =~= rows@);
    q
}

/// The fields of an indexed song document.
#[derive(Clone, Copy, Debug, PartialEq, Eq, Structural)]
pub enum CatalogField {
    /// Position in catalog order; stored and fast, used for sorted browsing.
    Order,
    /// The catalog row id; indexed and stored.
    RowId,
    /// Tokenized, stored text.
    Title,
    /// Tokenized, stored text.
    Artist,
    /// Tokenized, stored text.
    Language,
    /// An exact, untokenized decimal string; stored.
    Year,
    /// Tokenized, stored text.
    Lyrics,
    /// Milliseconds; stored.
    Duration,
    /// Indexed and stored.
    Duet,
    /// Stored text only.
    Cover,
    /// Stored text only.
    Audio,
}

/// A value stored in a document field.
pub enum FieldValue {
    Unsigned(u64),
    Signed(i64),
    Text(String),
    Flag(bool),
}

/// The mathematical content of a field value.
pub enum FieldData {
    Unsigned(u64),
    Signed(i64),
    Text(Seq<char>),
    Flag(bool),
}

impl View for FieldValue {
    type V = FieldData;

    open spec fn view(&self) -> FieldData {
        match self {
            FieldValue::Unsigned(n) => FieldData::Unsigned(*n),
            FieldValue::Signed(n) => FieldData::Signed(*n),
            FieldValue::Text(t) => FieldData::Text(t@),
            FieldValue::Flag(b) => FieldData::Flag(*b),
        }
    }
}

/// One `(field, text)` pair when `text` is present, none otherwise.
pub open spec fn optional_text(field: CatalogField, text: Option<String>) -> Seq<(CatalogField, FieldData)> {
    match text {
        Some(t) => seq![(field, FieldData::Text(t@))],
        None => Seq::empty(),
    }
}

/// The document that indexes `song` at position `order` of the catalog:
/// row id, order, title, artist and duration, then language, year (as
/// decimal text) and lyrics when present, the duet flag, the cover path when
/// present, and the audio path.
pub open spec fn song_fields(order: u64, song: Song) -> Seq<(CatalogField, FieldData)> {
    seq![
        (CatalogField::RowId, FieldData::Signed(song.row_id)),
        (CatalogField::Order, FieldData::Unsigned(order)),
        (CatalogField::Title, FieldData::Text(song.title@)),
        (CatalogField::Artist, FieldData::Text(song.artist@)),
        (CatalogField::Duration, FieldData::Unsigned(song.duration_ms)),
    ] + optional_text(CatalogField::Language, song.language) + match song.year {
        Some(y) => seq![(CatalogField::Year, FieldData::Text(decimal(y as int)))],
        None => Seq::empty(),
    } + optional_text(CatalogField::Lyrics, song.lyrics) + seq![
        (CatalogField::Duet, FieldData::Flag(song.duet)),
    ] + optional_text(CatalogField::Cover, song.cover_path) + seq![
        (CatalogField::Audio, FieldData::Text(song.audio_path@)),
    ]
}

/// The views of a list of field values.
pub open spec fn fields_view(v: Seq<(CatalogField, FieldValue)>) -> Seq<(CatalogField, FieldData)> {
    v.map_values(|p: (CatalogField, FieldValue)| (p.0, p.1@))
}

fn push_field(
    fields: &mut Vec<(CatalogField, FieldValue)>,
    field: CatalogField,
    value: FieldValue,
)
    ensures
        fields_view(final(fields)@) == fields_view(old(fields)@).push((field, value@)),
{
    fields.push((field, value));
    assert(fields_view(fields@) =~= fields_view(old(fields)@).push((field, value@)));
}

fn push_optional_text(
    fields: &mut Vec<(CatalogField, FieldValue)>,
    field: CatalogField,
    text: &Option<String>,
)
    ensures
        fields_view(final(fields)@) == fields_view(old(fields)@) + optional_text(field, *text),
{
    match text {
        Some(t) => push_field(fields, field, FieldValue::Text(t.clone())),
        None => {},
    }
    assert(fields_view(fields@) =~= fields_view(old(fields)@) + optional_text(field, *text));
}

/// The field values under which `song` is indexed at position `order`.
pub fn song_document(order: u64, song: &Song) -> (fields: Vec<(CatalogField, FieldValue)>)
    ensures
        fields_view(fields@) == song_fields(order, *song),
{
    let mut fields: Vec<(CatalogField, FieldValue)> = Vec::new();
    assert(fields_view(fields@) =~= Seq::empty());
    push_field(&mut fields, CatalogField::RowId, FieldValue::Signed(song.row_id));
    push_field(&mut fields, CatalogField::Order, FieldValue::Unsigned(order));
    push_field(&mut fields, CatalogField::Title, FieldValue::Text(song.title.clone()));
    push_field(&mut fields, CatalogField::Artist, FieldValue::Text(song.artist.clone()));
    push_field(&mut fields, CatalogField::Duration, FieldValue::Unsigned(song.duration_ms));
    let ghost head = fields_view(fields@);
    push_optional_text(&mut fields, CatalogField::Language, &song.language);
    let ghost with_language = fields_view(fields@);
    match song.year {
        Some(y) => {
            let mut text = String::new();
            push_decimal(&mut text, y);
            assert(text@ =~= decimal(y as int));
            push_field(&mut fields, CatalogField::Year, FieldValue::Text(text));
        },
        None => {},
    }
    let ghost with_year = fields_view(fields@);
    push_optional_text(&mut fields, CatalogField::Lyrics, &song.lyrics);
    push_field(&mut fields, CatalogField::Duet, FieldValue::Flag(song.duet));
    push_optional_text(&mut fields, CatalogField::Cover, &song.cover_path);
    push_field(&mut fields, CatalogField::Audio, FieldValue::Text(song.audio_path.clone()));
    proof {
        let year_part: Seq<(CatalogField, FieldData)> = match song.year {
            Some(y) => seq![(CatalogField::Year, FieldData::Text(decimal(y as int)))],
            None => Seq::empty(),
        };
        assert(with_year =~= with_language + year_part);
        assert(fields_view(fields@) =~= song_fields(order, *song));
    }
    fields
}

/// The first stored value of each field of a retrieved document.
pub struct StoredDocument {
    pub row_id: Option<i64>,
    pub title: Option<String>,
    pub artist: Option<String>,
    pub language: Option<String>,
    pub year: Option<String>,
    pub duration_ms: Option<u64>,
    pub lyrics: Option<String>,
    pub duet: Option<bool>,
    pub cover: Option<String>,
    pub audio: Option<String>,
}

/// Why a retrieved document is not a song.
#[derive(Clone, Copy, Debug, PartialEq, Eq, Structural)]
pub enum DocumentError {
    /// A field that every song has is absent.
    MissingField(CatalogField),
    /// The year is not a decimal integer.
    InvalidYear,
}

/// The error that reading `doc` as a song meets first, if any: a missing row
/// id, title or artist (in that order), a year that is not an integer, or a
/// missing duration.
pub open spec fn document_error(doc: StoredDocument) -> Option<DocumentError> {
    if doc.row_id is None {
        Some(DocumentError::MissingField(CatalogField::RowId))
    } else if doc.title is None {
        Some(DocumentError::MissingField(CatalogField::Title))
    } else if doc.artist is None {
        Some(DocumentError::MissingField(CatalogField::Artist))
    } else if doc.year matches Some(y) && parsed_i64(y@) is None {
        Some(DocumentError::InvalidYear)
    } else if doc.duration_ms is None {
        Some(DocumentError::MissingField(CatalogField::Duration))
    } else {
        None
    }
}

/// Reads a retrieved document back as a song. An absent duet flag reads as
/// `false`, an absent audio path as the empty string.
pub fn song_from_document(doc: StoredDocument) -> (r: Result<Song, DocumentError>)
    ensures
        match document_error(doc) {
            Some(e) => r == Err::<Song, DocumentError>(e),
            None => r matches Ok(song) && {
                &&& song.row_id == doc.row_id->0
                &&& song.title == doc.title->0
                &&& song.artist == doc.artist->0
                &&& song.language == doc.language
                &&& song.year == match doc.year {
                    Some(y) => parsed_i64(y@),
                    None => None,
                }
                &&& song.duration_ms == doc.duration_ms->0
                &&& song.lyrics == doc.lyrics
                &&& song.duet == (doc.duet == Some(true))
                &&& song.cover_path == doc.cover
                &&& song.audio_path@ == match doc.audio {
                    Some(a) => a@,
                    None => Seq::empty(),
                }
            },
        },
{
    let row_id = match doc.row_id {
        Some(v) => v,
        None => return Err(DocumentError::MissingField(CatalogField::RowId)),
    };
    let title = match doc.title {
        Some(v) => v,
        None => return Err(DocumentError::MissingField(CatalogField::Title)),
    };
    let artist = match doc.artist {
        Some(v) => v,
        None => return Err(DocumentError::MissingField(CatalogField::Artist)),
    };
    let year = match &doc.year {
        Some(text) => match parse_i64(text.as_str()) {
            Some(y) => Some(y),
            None => return Err(DocumentError::InvalidYear),
        },
        None => None,
    };
    let duration_ms = match doc.duration_ms {
        Some(v) => v,
        None => return Err(DocumentError::MissingField(CatalogField::Duration)),
    };
    let duet = match doc.duet {
        Some(b) => b,
        None => false,
    };
    let audio_path = match doc.audio {
        Some(a) => a,
        None => String::new(),
    };
    Ok(
        Song {
            row_id,
            title,
            artist,
            language: doc.language,
            year,
            duration_ms,
            lyrics: doc.lyrics,
            duet,
            cover_path: doc.cover,
            audio_path,
        },
    )
}

/// The comma-separated pieces of `s`; a string without commas is one piece.
pub open spec fn comma_pieces(s: Seq<char>) -> Seq<Seq<char>>
    decreases s.len(),
{
    if s.len() == 0 {
        seq![Seq::empty()]
    } else {
        let pieces = comma_pieces(s.drop_last());
        if s.last() == ',' {
            pieces.push(Seq::empty())
        } else {
            pieces.update(pieces.len() - 1, pieces.last().push(s.last()))
        }
    }
}

/// The row ids that a comma-separated list spells, or `None` when a piece is
/// not a decimal integer.
pub open spec fn parsed_ids(s: Seq<char>) -> Option<Seq<i64>> {
    let pieces = comma_pieces(s);
    if forall|i: int| 0 <= i < pieces.len() ==> (#[trigger] parsed_i64(pieces[i])) is Some {
        Some(pieces.map_values(|p: Seq<char>| parsed_i64(p)->0))
    } else {
        None
    }
}

proof fn lemma_comma_pieces_nonempty(s: Seq<char>)
    ensures
        comma_pieces(s).len() >= 1,
    decreases s.len(),
{
    if s.len() > 0 {
        lemma_comma_pieces_nonempty(s.drop_last());
    }
}

proof fn lemma_pieces_extend(s: Seq<char>, i: int, j: int)
    requires
        0 <= i < j <= s.len(),
        s[i] == ',',
    ensures
        comma_pieces(s.subrange(0, j)).len() > comma_pieces(s.subrange(0, i)).len(),
        forall|k: int|
            0 <= k < comma_pieces(s.subrange(0, i)).len() ==> comma_pieces(s.subrange(0, j))[k]
                == comma_pieces(s.subrange(0, i))[k],
    decreases j - i,
{
    let pj = s.subrange(0, j);
    lemma_comma_pieces_nonempty(s.subrange(0, i));
    if j == i + 1 {
        assert(pj.drop_last() =~= s.subrange(0, i));
    } else {
        lemma_pieces_extend(s, i, j - 1);
        assert(pj.drop_last() =~= s.subrange(0, j - 1));
    }
}

/// Reads a comma-separated list of row ids, such as `1,2,3`; `None` when a
/// piece is not a decimal integer.
pub fn parse_song_ids(ids: &str) -> (r: Option<Vec<i64>>)
    ensures
        match parsed_ids(ids@) {
            Some(rows) => r matches Some(v) && v@ == rows,
            None => r is None,
        },
{
    let n = ids.unicode_len();
    let mut rows: Vec<i64> = Vec::new();
    let mut current = String::new();
    let mut i: usize = 0;
    while i < n
        invariant
            i <= n,
            n == ids@.len(),
            comma_pieces(ids@.subrange(0, i as int)).len() == rows@.len() + 1,
            comma_pieces(ids@.subrange(0, i as int)).last() == current@,
            forall|k: int|
                0 <= k < rows@.len() ==> parsed_i64(
                    #[trigger] comma_pieces(ids@.subrange(0, i as int))[k],
                ) == Some(rows@[k]),
        decreases n - i,
    {
        let c = ids.get_char(i);
        let ghost before = comma_pieces(ids@.subrange(0, i as int));
        proof {
            let next = ids@.subrange(0, i as int + 1);
            assert(next.drop_last() =~= ids@.subrange(0, i as int));
            assert(next.last() == c);
            lemma_comma_pieces_nonempty(ids@.subrange(0, i as int));
        }
        if c == ',' {
            match parse_i64(current.as_str()) {
                Some(v) => {
                    rows.push(v);
                    current = String::new();
                },
                None => {
                    proof {
                        let pieces = comma_pieces(ids@);
                        lemma_pieces_extend(ids@, i as int, n as int);
                        assert(ids@.subrange(0, n as int) =~= ids@);
                        assert(pieces[rows@.len() as int] == before[rows@.len() as int]);
                        assert(parsed_i64(pieces[rows@.len() as int]) is None);
                    }
                    return None;
                },
            }
        } else {
            push_char(&mut current, c);
        }
        i = i + 1;
    }
    assert(ids@.subrange(0, n as int) =~= ids@);
    match parse_i64(current.as_str()) {
        Some(v) => {
            rows.push(v);
            proof {
                let pieces = comma_pieces(ids@);
                assert(rows@ =~= pieces.map_values(|p: Seq<char>| parsed_i64(p)->0));
            }
            Some(rows)
        },
        None => None,
    }
}

/// The query for a comma-separated list of row ids (`1,2` becomes
/// `rowid:1 OR rowid:2`); `None` when a piece is not a decimal integer.
pub fn song_ids_query(ids: &str) -> (r: Option<String>)
    ensures
        match parsed_ids(ids@) {
            Some(rows) => r matches Some(q) && q@ == rowid_query(rows),
            None => r is None,
        },
{
    match parse_song_ids(ids) {
        Some(rows) => Some(build_rowid_query(&rows)),
        None => None,
    }
}

} // verus!
