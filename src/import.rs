//! Extraction of records from the rows of a delimited export.

use vstd::prelude::*;
use crate::calendar::{date_parsed_from, parse_date, Date};
use crate::number::{amount_in_range, amount_of, known_locale, NumberLocale};
use crate::record::Record;
use crate::text::{decode_cell, regex_compiles, regex_matches, text_equals, utf8_lossy, Pattern};

verus! {

/// What a column holds.
#[derive(Clone, Copy, Debug, PartialEq, Eq)]
pub enum Field {
    Date,
    Party,
    Party1,
    Party2,
    Amount,
    Description,
}

/// The field that a configured name stands for.
pub open spec fn field_named(name: Seq<char>) -> Option<Field> {
    if name == "date"@ {
        Some(Field::Date)
    } else if name == "party"@ {
        Some(Field::Party)
    } else if name == "party1"@ {
        Some(Field::Party1)
    } else if name == "party2"@ {
        Some(Field::Party2)
    } else if name == "amount"@ {
        Some(Field::Amount)
    } else if name == "description"@ {
        Some(Field::Description)
    } else {
        None
    }
}

/// Reads a configured field name.
pub fn field_from_name(name: &str) -> (r: Option<Field>)
    ensures
        r == field_named(name@),
{
    proof {
        reveal_strlit("date");
        reveal_strlit("party");
        reveal_strlit("party1");
        reveal_strlit("party2");
        reveal_strlit("amount");
        reveal_strlit("description");
    }
    if text_equals(name, "date") {
        Some(Field::Date)
    } else if text_equals(name, "party") {
        Some(Field::Party)
    } else if text_equals(name, "party1") {
        Some(Field::Party1)
    } else if text_equals(name, "party2") {
        Some(Field::Party2)
    } else if text_equals(name, "amount") {
        Some(Field::Amount)
    } else if text_equals(name, "description") {
        Some(Field::Description)
    } else {
        None
    }
}

/// A required field that a row left unset.
#[derive(Clone, Copy, Debug, PartialEq, Eq)]
pub enum MissingField {
    Date,
    Party1,
    Party2,
    Amount,
}

/// Why an import failed. `row` counts the rows of the input from zero,
/// skipped rows and the header included.
#[derive(Debug)]
pub enum ImportError {
    UnknownLocale { name: String },
    UnknownField { field: String },
    InvalidPattern { pattern: String },
    MissingHeader,
    NotEnoughColumns { row: usize, column: usize },
    DateFormat { row: usize, value: String, format: String },
    NumberFormat { row: usize, value: String },
    IncompleteRecord { row: usize, missing: MissingField },
}

/// How the rows of an export are read.
pub struct ImportConfig {
    /// Rows before the header.
    pub skip: Option<usize>,
    /// strftime-like pattern of the date column.
    pub date_format: String,
    /// Locale of the amounts; "en" when absent.
    pub number_locale: Option<String>,
    /// (header regex, field name), in the order they are tried.
    pub map: Vec<(String, String)>,
}

pub open spec fn map_view(m: Seq<(String, String)>) -> Seq<(Seq<char>, Seq<char>)> {
    m.map_values(|e: (String, String)| (e.0@, e.1@))
}

/// An entry of the field map is usable: its field is known and its regex compiles.
pub open spec fn entry_ok(e: (Seq<char>, Seq<char>)) -> bool {
    field_named(e.1) is Some && regex_compiles(e.0)
}

/// The matchers that a usable field map compiles to.
pub open spec fn configured_matchers(m: Seq<(String, String)>) -> Seq<(Seq<char>, Field)> {
    m.map_values(|e: (String, String)| (e.0@, field_named(e.1@)->0))
}

/// Compiles the field map in order; the first unusable entry is the error.
pub fn compile_field_map(map: &Vec<(String, String)>) -> (r: Result<Vec<(Pattern, Field)>, ImportError>)
    ensures
        match r {
            Ok(ms) => {
                &&& forall|i: int| 0 <= i < map@.len() ==> entry_ok(#[trigger] map_view(map@)[i])
                &&& matchers_view(ms@) == configured_matchers(map@)
                &&& ms@.len() == map@.len()
                &&& forall|i: int|
                    0 <= i < map@.len() ==> (#[trigger] ms@[i]).0@ == map@[i].0@ && Some(ms@[i].1)
                        == field_named(map@[i].1@)
            },
            Err(e) => exists|i: int|
                0 <= i < map@.len() && !entry_ok(#[trigger] map_view(map@)[i]) && (forall|j: int|
                    0 <= j < i ==> entry_ok(#[trigger] map_view(map@)[j])) && match e {
                    ImportError::UnknownField { field } => field_named(map@[i].1@) is None
                        && field@ == map@[i].1@,
                    ImportError::InvalidPattern { pattern } => field_named(map@[i].1@) is Some
                        && pattern@ == map@[i].0@,
                    _ => false,
                },
        },
{
    let ghost mv = map_view(map@);
    let mut ms: Vec<(Pattern, Field)> = Vec::new();
    let mut i: usize = 0;
    assert(matchers_view(ms@) =~= configured_matchers(map@).take(0));
    while i < map.len()
        invariant
            mv == map_view(map@),
            i <= map@.len(),
            ms@.len() == i,
            forall|j: int| 0 <= j < i ==> entry_ok(#[trigger] mv[j]),
            forall|j: int|
                0 <= j < i ==> (#[trigger] ms@[j]).0@ == map@[j].0@ && Some(ms@[j].1) == field_named(
                    map@[j].1@,
                ),
            matchers_view(ms@) == configured_matchers(map@).take(i as int),
        decreases map@.len() - i,
    {
        assert(mv[i as int] == (map@[i as int].0@, map@[i as int].1@));
        let field = match field_from_name(map[i].1.as_str()) {
            Some(f) => f,
            None => {
                return Err(ImportError::UnknownField { field: map[i].1.clone() });
            },
        };
        let pattern = match Pattern::new(map[i].0.clone()) {
            Some(p) => p,
            None => {
                return Err(ImportError::InvalidPattern { pattern: map[i].0.clone() });
            },
        };
        let ghost prev = matchers_view(ms@);
        ms.push((pattern, field));
        proof {
            assert(matchers_view(ms@) =~= prev.push((map@[i as int].0@, field)));
            assert(configured_matchers(map@).take(i + 1) =~= configured_matchers(map@).take(i as int).push(
                configured_matchers(map@)[i as int]));
        }
        i = i + 1;
    }
    assert(configured_matchers(map@).take(map@.len() as int) =~= configured_matchers(map@));
    Ok(ms)
}

pub open spec fn matchers_view(ms: Seq<(Pattern, Field)>) -> Seq<(Seq<char>, Field)> {
    ms.map_values(|e: (Pattern, Field)| (e.0@, e.1))
}

pub open spec fn cells_view(row: Seq<Vec<u8>>) -> Seq<Seq<u8>> {
    row.map_values(|c: Vec<u8>| c@)
}

/// The field of the first matcher whose regex matches `text`.
pub open spec fn first_field(ms: Seq<(Seq<char>, Field)>, text: Seq<char>) -> Option<Field>
    decreases ms.len(),
{
    if ms.len() == 0 {
        None
    } else if regex_matches(ms[0].0, text) {
        Some(ms[0].1)
    } else {
        first_field(ms.drop_first(), text)
    }
}

/// (column, field) for each header cell that some matcher matches, in column order.
pub open spec fn header_projection(ms: Seq<(Seq<char>, Field)>, cells: Seq<Seq<u8>>) -> Seq<(int, Field)>
    decreases cells.len(),
{
    if cells.len() == 0 {
        Seq::empty()
    } else {
        let k = cells.len() - 1;
        let prev = header_projection(ms, cells.drop_last());
        match first_field(ms, utf8_lossy(cells[k])) {
            Some(f) => prev.push((k, f)),
            None => prev,
        }
    }
}

pub open spec fn projection_view(p: Seq<(usize, Field)>) -> Seq<(int, Field)> {
    p.map_values(|e: (usize, Field)| (e.0 as int, e.1))
}

/// The field of the first matcher that matches `text`.
pub fn match_field(ms: &Vec<(Pattern, Field)>, text: &str) -> (r: Option<Field>)
    ensures
        r == first_field(matchers_view(ms@), text@),
{
    let ghost mv = matchers_view(ms@);
    let mut i: usize = 0;
    assert(mv.skip(0) =~= mv);
    while i < ms.len()
        invariant
            i <= ms@.len(),
            mv == matchers_view(ms@),
            mv.len() == ms@.len(),
            first_field(mv, text@) == first_field(mv.skip(i as int), text@),
        decreases ms@.len() - i,
    {
        proof {
            assert(mv.skip(i as int).drop_first() =~= mv.skip(i + 1));
            assert(mv.skip(i as int)[0] == mv[i as int]);
            assert(mv[i as int] == (ms@[i as int].0@, ms@[i as int].1));
        }
        if ms[i].0.is_match(text) {
            return Some(ms[i].1);
        }
        i = i + 1;
    }
    None
}

/// Maps the header cells to fields: each cell takes the field of the first
/// matcher that matches its text; cells that none matches are dropped.
pub fn map_header(ms: &Vec<(Pattern, Field)>, header: &Vec<Vec<u8>>) -> (r: Vec<(usize, Field)>)
    ensures
        projection_view(r@) == header_projection(matchers_view(ms@), cells_view(header@)),
{
    let ghost cv = cells_view(header@);
    let mut out: Vec<(usize, Field)> = Vec::new();
    let mut k: usize = 0;
    assert(cv.take(0) =~= Seq::<Seq<u8>>::empty());
    assert(projection_view(out@) =~= Seq::<(int, Field)>::empty());
    while k < header.len()
        invariant
            k <= header@.len(),
            cv == cells_view(header@),
            cv.len() == header@.len(),
            projection_view(out@) == header_projection(matchers_view(ms@), cv.take(k as int)),
        decreases header@.len() - k,
    {
        let text = decode_cell(header[k].as_slice());
        proof {
            assert(cv.take(k + 1).drop_last() =~= cv.take(k as int));
            assert(cv.take(k + 1)[k as int] == header@[k as int]@);
        }
        let ghost prev = projection_view(out@);
        match match_field(ms, text.as_str()) {
            Some(f) => {
                out.push((k, f));
                assert(projection_view(out@) =~= prev.push((k as int, f)));
            },
            None => {},
        }
        k = k + 1;
    }
    assert(cv.take(header@.len() as int) =~= cv);
    out
}

/// The fields gathered from a row so far.
pub struct Partial {
    pub date: Option<Date>,
    pub party1: Option<Seq<char>>,
    pub party2: Option<Seq<char>>,
    pub amount: Option<int>,
    pub description: Seq<char>,
}

/// Why a mapped cell could not be taken.
pub enum CellFailure {
    Columns(int),
    BadDate(Seq<char>),
    BadNumber(Seq<char>),
}

pub open spec fn empty_partial() -> Partial {
    Partial { date: None, party1: None, party2: None, amount: None, description: Seq::empty() }
}

/// `p` after reading `text` as field `f`.
pub open spec fn apply_field(p: Partial, f: Field, text: Seq<char>, locale: Seq<char>, format: Seq<char>) -> Result<Partial, CellFailure> {
    match f {
        Field::Date => match date_parsed_from(text, format) {
            Some(ymd) => Ok(
                Partial {
                    date: Some(Date { year: ymd.0 as i32, month: ymd.1 as u32, day: ymd.2 as u32 }),
                    party1: p.party1,
                    party2: p.party2,
                    amount: p.amount,
                    description: p.description,
                },
            ),
            None => Err(CellFailure::BadDate(text)),
        },
        Field::Party => Ok(
            Partial {
                date: p.date,
                party1: Some(text),
                party2: Some(text),
                amount: p.amount,
                description: p.description,
            },
        ),
        Field::Party1 => Ok(
            Partial {
                date: p.date,
                party1: Some(text),
                party2: p.party2,
                amount: p.amount,
                description: p.description,
            },
        ),
        Field::Party2 => Ok(
            Partial {
                date: p.date,
                party1: p.party1,
                party2: Some(text),
                amount: p.amount,
                description: p.description,
            },
        ),
        Field::Amount => match amount_of(text, locale) {
            Some(a) => Ok(
                Partial {
                    date: p.date,
                    party1: p.party1,
                    party2: p.party2,
                    amount: Some(a),
                    description: p.description,
                },
            ),
            None => Err(CellFailure::BadNumber(text)),
        },
        Field::Description => Ok(
            Partial {
                date: p.date,
                party1: p.party1,
                party2: p.party2,
                amount: p.amount,
                description: text,
            },
        ),
    }
}

/// The mapped cells of a row read in column-map order; the first failure stops.
pub open spec fn gather(proj: Seq<(int, Field)>, cells: Seq<Seq<u8>>, locale: Seq<char>, format: Seq<char>) -> Result<Partial, CellFailure>
    decreases proj.len(),
{
    if proj.len() == 0 {
        Ok(empty_partial())
    } else {
        match gather(proj.drop_last(), cells, locale, format) {
            Err(e) => Err(e),
            Ok(p) => {
                let (c, f) = proj.last();
                if 0 <= c < cells.len() {
                    apply_field(p, f, utf8_lossy(cells[c]), locale, format)
                } else {
                    Err(CellFailure::Columns(c))
                }
            },
        }
    }
}

proof fn lemma_gather_stops(
    proj: Seq<(int, Field)>,
    cells: Seq<Seq<u8>>,
    locale: Seq<char>,
    format: Seq<char>,
    k: int,
)
    requires
        0 <= k <= proj.len(),
        gather(proj.take(k), cells, locale, format) is Err,
    ensures
        gather(proj, cells, locale, format) == gather(proj.take(k), cells, locale, format),
    decreases proj.len() - k,
{
    if k == proj.len() {
        assert(proj.take(k) =~= proj);
    } else {
        assert(proj.take(k + 1).drop_last() =~= proj.take(k));
        lemma_gather_stops(proj, cells, locale, format, k + 1);
    }
}

pub open spec fn record_model(r: Record) -> (Date, Seq<char>, Seq<char>, Seq<char>, int) {
    (r.date, r.party1@, r.party2@, r.description@, r.amount as int)
}

/// A finished record, or the first required field missing (date, party 1,
/// party 2, amount).
pub open spec fn finish(p: Partial) -> Result<(Date, Seq<char>, Seq<char>, Seq<char>, int), MissingField> {
    if p.date is None {
        Err(MissingField::Date)
    } else if p.party1 is None {
        Err(MissingField::Party1)
    } else if p.party2 is None {
        Err(MissingField::Party2)
    } else if p.amount is None {
        Err(MissingField::Amount)
    } else {
        Ok((p.date->0, p.party1->0, p.party2->0, p.description, p.amount->0))
    }
}

/// `r` is what reading row `row` with cells `cells` gives.
pub open spec fn row_outcome(
    proj: Seq<(int, Field)>,
    cells: Seq<Seq<u8>>,
    row: usize,
    locale: Seq<char>,
    format: Seq<char>,
    r: Result<Record, ImportError>,
) -> bool {
    match gather(proj, cells, locale, format) {
        Err(CellFailure::Columns(c)) => r matches Err(ImportError::NotEnoughColumns { row: x, column })
            && x == row && column == c,
        Err(CellFailure::BadDate(t)) => r matches Err(ImportError::DateFormat { row: x, value, format: f })
            && x == row && value@ == t && f@ == format,
        Err(CellFailure::BadNumber(t)) => r matches Err(ImportError::NumberFormat { row: x, value })
            && x == row && value@ == t,
        Ok(p) => match finish(p) {
            Ok(m) => r matches Ok(rec) && record_model(rec) == m && rec.date.valid() && amount_in_range(
                rec.amount as int,
            ),
            Err(mf) => r matches Err(ImportError::IncompleteRecord { row: x, missing }) && x == row
                && missing == mf,
        },
    }
}

pub open spec fn partial_view(
    date: Option<Date>,
    party1: Option<String>,
    party2: Option<String>,
    amount: Option<i128>,
    description: String,
) -> Partial {
    Partial {
        date,
        party1: match party1 {
            Some(s) => Some(s@),
            None => None,
        },
        party2: match party2 {
            Some(s) => Some(s@),
            None => None,
        },
        amount: match amount {
            Some(a) => Some(a as int),
            None => None,
        },
        description: description@,
    }
}

/// Builds the record of row `row` from its gathered fields, or names the
/// first required field that is missing.
pub fn finish_record(
    date: Option<Date>,
    party1: Option<String>,
    party2: Option<String>,
    amount: Option<i128>,
    description: String,
    row: usize,
) -> (r: Result<Record, ImportError>)
    ensures
        match finish(partial_view(date, party1, party2, amount, description)) {
            Ok(m) => r matches Ok(rec) && record_model(rec) == m && rec.date == date->0 && rec.amount
                == amount->0,
            Err(mf) => r matches Err(ImportError::IncompleteRecord { row: x, missing }) && x == row
                && missing == mf,
        },
{
    let date = match date {
        Some(d) => d,
        None => return Err(ImportError::IncompleteRecord { row, missing: MissingField::Date }),
    };
    let party1 = match party1 {
        Some(p) => p,
        None => return Err(ImportError::IncompleteRecord { row, missing: MissingField::Party1 }),
    };
    let party2 = match party2 {
        Some(p) => p,
        None => return Err(ImportError::IncompleteRecord { row, missing: MissingField::Party2 }),
    };
    let amount = match amount {
        Some(a) => a,
        None => return Err(ImportError::IncompleteRecord { row, missing: MissingField::Amount }),
    };
    Ok(Record { date, party1, party2, description, amount })
}

/// Reads one data row through the column map.
pub fn extract_record(
    proj: &Vec<(usize, Field)>,
    cells: &Vec<Vec<u8>>,
    row: usize,
    locale: &NumberLocale,
    format: &String,
) -> (r: Result<Record, ImportError>)
    ensures
        row_outcome(projection_view(proj@), cells_view(cells@), row, locale@, format@, r),
{
    let ghost pv = projection_view(proj@);
    let ghost cv = cells_view(cells@);
    let mut date: Option<Date> = None;
    let mut party1: Option<String> = None;
    let mut party2: Option<String> = None;
    let mut amount: Option<i128> = None;
    let mut description = String::new();
    let mut i: usize = 0;
    assert(pv.take(0) =~= Seq::<(int, Field)>::empty());
    while i < proj.len()
        invariant
            i <= proj@.len(),
            pv == projection_view(proj@),
            cv == cells_view(cells@),
            pv.len() == proj@.len(),
            cv.len() == cells@.len(),
            gather(pv.take(i as int), cv, locale@, format@) == Ok::<Partial, CellFailure>(
                partial_view(date, party1, party2, amount, description),
            ),
            date matches Some(d) ==> d.valid(),
            amount matches Some(a) ==> amount_in_range(a as int),
        decreases proj@.len() - i,
    {
        let (column, field) = proj[i];
        proof {
            assert(pv.take(i + 1).drop_last() =~= pv.take(i as int));
            assert(pv.take(i + 1).last() == (column as int, field));
        }
        if column >= cells.len() {
            proof {
                lemma_gather_stops(pv, cv, locale@, format@, i + 1);
            }
            return Err(ImportError::NotEnoughColumns { row, column });
        }
        let text = decode_cell(cells[column].as_slice());
        assert(cv[column as int] == cells@[column as int]@);
        match field {
            Field::Date => match parse_date(text.as_str(), format.as_str()) {
                Some(d) => {
                    date = Some(d);
                },
                None => {
                    proof {
                        lemma_gather_stops(pv, cv, locale@, format@, i + 1);
                    }
                    return Err(ImportError::DateFormat { row, value: text, format: format.clone() });
                },
            },
            Field::Party => {
                party1 = Some(text.clone());
                party2 = Some(text);
            },
            Field::Party1 => {
                party1 = Some(text);
            },
            Field::Party2 => {
                party2 = Some(text);
            },
            Field::Amount => match locale.parse_amount(text.as_str()) {
                Some(a) => {
                    amount = Some(a);
                },
                None => {
                    proof {
                        lemma_gather_stops(pv, cv, locale@, format@, i + 1);
                    }
                    return Err(ImportError::NumberFormat { row, value: text });
                },
            },
            Field::Description => {
                description = text;
            },
        }
        i = i + 1;
    }
    assert(pv.take(proj@.len() as int) =~= pv);
    finish_record(date, party1, party2, amount, description, row)
}

/// The header of an export as read: the column map, whether it found fewer
/// or more columns than configured, and the locale of the amounts.
pub struct Header {
    pub fields: Vec<(usize, Field)>,
    pub mismatch: bool,
    pub locale: NumberLocale,
}

/// What an import yields: the column map, whether it found fewer or more
/// columns than configured, and the records in row order.
pub struct Imported {
    pub fields: Vec<(usize, Field)>,
    pub mismatch: bool,
    pub records: Vec<Record>,
}

pub open spec fn skip_of(config: &ImportConfig) -> int {
    match config.skip {
        Some(s) => s as int,
        None => 0,
    }
}

/// The locale identifier in use.
pub open spec fn locale_name_of(config: &ImportConfig) -> Seq<char> {
    match config.number_locale {
        Some(n) => n@,
        None => "en"@,
    }
}

pub open spec fn locale_ok(config: &ImportConfig) -> bool {
    config.number_locale matches Some(n) ==> known_locale(n@)
}

pub open spec fn map_ok(config: &ImportConfig) -> bool {
    forall|i: int| 0 <= i < config.map@.len() ==> entry_ok(#[trigger] map_view(config.map@)[i])
}

/// The column map built from the header row.
pub open spec fn projection_of(config: &ImportConfig, rows: Seq<Vec<Vec<u8>>>) -> Seq<(int, Field)> {
    header_projection(configured_matchers(config.map@), cells_view(rows[skip_of(config)]@))
}

/// `r` is what reading the header gives: the locale is looked up, the field
/// map compiled, then the header row mapped.
pub open spec fn header_outcome(config: &ImportConfig, rows: Seq<Vec<Vec<u8>>>, r: Result<Header, ImportError>) -> bool {
    let skip = skip_of(config);
    match r {
        Ok(h) => {
            &&& locale_ok(config)
            &&& map_ok(config)
            &&& skip < rows.len()
            &&& projection_view(h.fields@) == projection_of(config, rows)
            &&& h.mismatch == (h.fields@.len() != config.map@.len())
            &&& h.locale@ == locale_name_of(config)
        },
        Err(e) => {
            ||| (config.number_locale matches Some(n) && (!known_locale(n@) && (e matches ImportError::UnknownLocale { name } && name@ == n@)))
            ||| (locale_ok(config) && exists|i: int|
                0 <= i < config.map@.len() && !entry_ok(#[trigger] map_view(config.map@)[i]) && (forall|j: int|
                    0 <= j < i ==> entry_ok(#[trigger] map_view(config.map@)[j])) && match e {
                    ImportError::UnknownField { field } => field_named(config.map@[i].1@) is None
                        && field@ == config.map@[i].1@,
                    ImportError::InvalidPattern { pattern } => field_named(config.map@[i].1@) is Some
                        && pattern@ == config.map@[i].0@,
                    _ => false,
                })
            ||| (locale_ok(config) && map_ok(config) && skip >= rows.len() && e is MissingHeader)
        },
    }
}

/// Row `cells` reads into a record.
pub open spec fn row_ok(proj: Seq<(int, Field)>, cells: Seq<Seq<u8>>, locale: Seq<char>, format: Seq<char>) -> bool {
    gather(proj, cells, locale, format) matches Ok(p) && finish(p) is Ok
}

/// `r` is what reading the rows from `first` on gives: a record for each, or
/// the failure of the first row that does not read.
pub open spec fn records_outcome(
    proj: Seq<(int, Field)>,
    rows: Seq<Vec<Vec<u8>>>,
    first: int,
    locale: Seq<char>,
    format: Seq<char>,
    r: Result<Vec<Record>, ImportError>,
) -> bool {
    match r {
        Ok(recs) => {
            &&& recs@.len() == (if first < rows.len() { rows.len() - first } else { 0 })
            &&& forall|i: int|
                0 <= i < recs@.len() ==> row_outcome(
                    proj,
                    cells_view(rows[first + i]@),
                    (first + i) as usize,
                    locale,
                    format,
                    Ok(#[trigger] recs@[i]),
                )
        },
        Err(e) => exists|k: int|
            first <= k < rows.len() && (forall|j: int|
                first <= j < k ==> #[trigger] row_ok(proj, cells_view(rows[j]@), locale, format))
                && row_outcome(proj, cells_view(rows[k]@), k as usize, locale, format, Err(e)),
    }
}

/// `r` is what importing `rows` with `config` gives: the header is read, then
/// every later row, the first failure ending the import.
pub open spec fn import_outcome(config: &ImportConfig, rows: Seq<Vec<Vec<u8>>>, r: Result<Imported, ImportError>) -> bool {
    match r {
        Ok(imp) => {
            &&& locale_ok(config)
            &&& map_ok(config)
            &&& skip_of(config) < rows.len()
            &&& projection_view(imp.fields@) == projection_of(config, rows)
            &&& imp.mismatch == (imp.fields@.len() != config.map@.len())
            &&& records_outcome(
                projection_of(config, rows),
                rows,
                skip_of(config) + 1,
                locale_name_of(config),
                config.date_format@,
                Ok(imp.records),
            )
        },
        Err(e) => {
            ||| header_outcome(config, rows, Err::<Header, ImportError>(e))
            ||| (locale_ok(config) && map_ok(config) && skip_of(config) < rows.len() && records_outcome(
                projection_of(config, rows),
                rows,
                skip_of(config) + 1,
                locale_name_of(config),
                config.date_format@,
                Err(e),
            ))
        },
    }
}

/// Reads the header: looks up the locale, compiles the field map, skips
/// `skip` rows and maps the next one.
pub fn read_header(config: &ImportConfig, rows: &Vec<Vec<Vec<u8>>>) -> (r: Result<Header, ImportError>)
    ensures
        header_outcome(config, rows@, r),
{
    let name = match &config.number_locale {
        Some(n) => Some(n.clone()),
        None => None,
    };
    let locale = match NumberLocale::new(name) {
        Some(l) => l,
        None => {
            return Err(ImportError::UnknownLocale { name: config.number_locale.as_ref().unwrap().clone() });
        },
    };
    let ms = match compile_field_map(&config.map) {
        Ok(ms) => ms,
        Err(e) => {
            return Err(e);
        },
    };
    let skip: usize = match config.skip {
        Some(s) => s,
        None => 0,
    };
    if skip >= rows.len() {
        return Err(ImportError::MissingHeader);
    }
    let fields = map_header(&ms, &rows[skip]);
    let mismatch = fields.len() != config.map.len();
    Ok(Header { fields, mismatch, locale })
}

/// Reads the rows from `first` on through the header's column map.
pub fn read_records(header: &Header, rows: &Vec<Vec<Vec<u8>>>, first: usize, format: &String) -> (r: Result<Vec<Record>, ImportError>)
    ensures
        records_outcome(projection_view(header.fields@), rows@, first as int, header.locale@, format@, r),
{
    let ghost proj = projection_view(header.fields@);
    let mut records: Vec<Record> = Vec::new();
    if first >= rows.len() {
        return Ok(records);
    }
    let mut k: usize = first;
    while k < rows.len()
        invariant
            first < rows@.len(),
            first <= k <= rows@.len(),
            proj == projection_view(header.fields@),
            records@.len() == k - first,
            forall|j: int| first <= j < k ==> #[trigger] row_ok(proj, cells_view(rows@[j]@), header.locale@, format@),
            forall|i: int|
                0 <= i < records@.len() ==> row_outcome(
                    proj,
                    cells_view(rows@[first + i]@),
                    (first + i) as usize,
                    header.locale@,
                    format@,
                    Ok(#[trigger] records@[i]),
                ),
        decreases rows@.len() - k,
    {
        match extract_record(&header.fields, &rows[k], k, &header.locale, format) {
            Ok(rec) => {
                let ghost before = records@;
                records.push(rec);
                proof {
                    assert(records@[k - first] == rec);
                    assert forall|i: int| 0 <= i < records@.len() implies row_outcome(
                        proj,
                        cells_view(rows@[first + i]@),
                        (first + i) as usize,
                        header.locale@,
                        format@,
                        Ok(#[trigger] records@[i]),
                    ) by {
                        if i < before.len() {
                            assert(records@[i] == before[i]);
                        }
                    }
                    assert(row_ok(proj, cells_view(rows@[k as int]@), header.locale@, format@));
                }
            },
            Err(e) => {
                proof {
                    assert(row_outcome(proj, cells_view(rows@[k as int]@), k, header.locale@, format@, Err(e)));
                }
                return Err(e);
            },
        }
        k = k + 1;
    }
    Ok(records)
}

/// Imports the rows of an export: skips `skip` rows, maps the header, and
/// reads every later row into a record. Rows may differ in length.
pub fn import(config: &ImportConfig, rows: &Vec<Vec<Vec<u8>>>) -> (r: Result<Imported, ImportError>)
    ensures
        import_outcome(config, rows@, r),
{
    let header = match read_header(config, rows) {
        Ok(h) => h,
        Err(e) => {
            return Err(e);
        },
    };
    let skip: usize = match config.skip {
        Some(s) => s,
        None => 0,
    };
    let n = rows.len();
    assert(skip < n);
    match read_records(&header, rows, skip + 1, &config.date_format) {
        Ok(records) => Ok(Imported { fields: header.fields, mismatch: header.mismatch, records }),
        Err(e) => Err(e),
    }
}

} // verus!
