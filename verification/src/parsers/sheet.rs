//! What the parsers read of a `spreadsheet_ods::Sheet`, and the calls that read it.
//!
//! A sheet is a store of cells keyed by (row, column). Its cells hold floats,
//! dates and rich text of the outside crate; the library reads each cell as a
//! [`CellValue`] of its own, and the contracts below speak of a sheet through
//! three names: its title, the content of its cells and the text of its
//! annotations.
use vstd::prelude::*;
use chrono::Datelike;
use spreadsheet_ods::{Sheet, Value};

verus! {

#[verifier::external_type_specification]
#[verifier::external_body]
pub struct ExSheet(spreadsheet_ods::Sheet);

/// A cell's content as the parsers read it. Numbers and currency amounts are
/// carried as the bit pattern of their `f64` (`f64::to_bits`); a date-time is
/// carried as the calendar date it falls on.
pub enum CellValue {
    Empty,
    Number(u64),
    Currency(u64),
    Text(String),
    DateTime { year: i32, month: u32, day: u32 },
    /// Any other kind of value (boolean, percentage, rich text, duration).
    Other,
}

pub enum CellView {
    Empty,
    Number(u64),
    Currency(u64),
    Text(Seq<char>),
    DateTime { year: i32, month: u32, day: u32 },
    Other,
}

impl View for CellValue {
    type V = CellView;

    open spec fn view(&self) -> CellView {
        match self {
            CellValue::Empty => CellView::Empty,
            CellValue::Number(b) => CellView::Number(*b),
            CellValue::Currency(b) => CellView::Currency(*b),
            CellValue::Text(s) => CellView::Text(s@),
            CellValue::DateTime { year, month, day } => CellView::DateTime {
                year: *year,
                month: *month,
                day: *day,
            },
            CellValue::Other => CellView::Other,
        }
    }
}

/// The name of a sheet.
pub uninterp spec fn sheet_title(sheet: Sheet) -> Seq<char>;

/// The cells that a sheet stores, by (row, column), each read as a [`CellView`].
pub uninterp spec fn sheet_cells(sheet: Sheet) -> Map<(u32, u32), CellView>;

/// The annotations that a sheet stores, by (row, column): the plain text of
/// each paragraph of the annotation, in order.
pub uninterp spec fn sheet_notes(sheet: Sheet) -> Map<(u32, u32), Seq<Seq<char>>>;

/// The content of the cell at (row, col) of `cells`; a cell that is not
/// stored is empty.
pub open spec fn stored_or_empty(cells: Map<(u32, u32), CellView>, row: u32, col: u32) -> CellView {
    if cells.dom().contains((row, col)) {
        cells[(row, col)]
    } else {
        CellView::Empty
    }
}

/// The content of a cell of `sheet`.
pub open spec fn cell_at(sheet: Sheet, row: u32, col: u32) -> CellView {
    stored_or_empty(sheet_cells(sheet), row, col)
}

/// The name of `sheet`: calls `Sheet::name`, which returns the name the sheet
/// was given. The contract names the result `sheet_title`.
#[verifier::external_body]
pub fn sheet_name(sheet: &Sheet) -> (r: String)
    ensures
        r@ == sheet_title(*sheet),
{
    sheet.name().clone()
}

/// The content of a cell: calls `Sheet::value`, which returns the stored
/// cell's value or `Value::Empty` for a cell that is not stored, and reads it
/// as a [`CellValue`] (a float by its bits, a date-time by its calendar date,
/// kinds the parsers do not read as `Other`). The contract ties the result to
/// the cell's entry in `sheet_cells`.
#[verifier::external_body]
pub fn cell_value(sheet: &Sheet, row: u32, col: u32) -> (r: CellValue)
    ensures
        r@ == stored_or_empty(sheet_cells(*sheet), row, col),
{
    match sheet.value(row, col) {
        Value::Empty => CellValue::Empty,
        Value::Number(f) => CellValue::Number(f.to_bits()),
        Value::Currency(c, _) => CellValue::Currency(c.to_bits()),
        Value::Text(s) => CellValue::Text(s.clone()),
        Value::DateTime(dt) => CellValue::DateTime { year: dt.year(), month: dt.month(), day: dt.day() },
        _ => CellValue::Other,
    }
}

/// The number of paragraphs of a cell's annotation: calls `Sheet::annotation`
/// and `Annotation::text`; `None` where the cell has no annotation.
#[verifier::external_body]
pub fn note_paragraph_count(sheet: &Sheet, row: u32, col: u32) -> (r: Option<usize>)
    ensures
        match r {
            Some(n) => sheet_notes(*sheet).dom().contains((row, col)) && n == sheet_notes(
                *sheet,
            )[(row, col)].len(),
            None => !sheet_notes(*sheet).dom().contains((row, col)),
        },
{
    match sheet.annotation(row, col) {
        Some(a) => Some(a.text().len()),
        None => None,
    }
}

/// The plain text of paragraph `i` of a cell's annotation: calls
/// `XmlTag::extract_text` on it, which appends the text of the paragraph and of
/// all tags nested in it.
#[verifier::external_body]
pub fn note_paragraph(sheet: &Sheet, row: u32, col: u32, i: usize) -> (r: String)
    requires
        sheet_notes(*sheet).dom().contains((row, col)),
        i < sheet_notes(*sheet)[(row, col)].len(),
    ensures
        r@ == sheet_notes(*sheet)[(row, col)][i as int],
{
    let mut text = String::new();
    if let Some(a) = sheet.annotation(row, col) {
        a.text()[i].extract_text(&mut text);
    }
    text
}

// ---------------------------------------------------------------------------
// Calendar dates, as chrono writes them.
// ---------------------------------------------------------------------------

/// Leap years of the proleptic Gregorian calendar.
pub open spec fn is_leap_year(year: int) -> bool {
    year % 4 == 0 && (year % 100 != 0 || year % 400 == 0)
}

/// The number of days of a month.
pub open spec fn days_in_month(year: int, month: int) -> int {
    if month == 2 {
        if is_leap_year(year) {
            29
        } else {
            28
        }
    } else if month == 4 || month == 6 || month == 9 || month == 11 {
        30
    } else {
        31
    }
}

/// A date that `chrono::NaiveDate` can hold: an existing day of the
/// proleptic Gregorian calendar between the years -262143 and 262142.
pub open spec fn is_calendar_date(year: i32, month: u32, day: u32) -> bool {
    &&& -262143 <= year <= 262142
    &&& 1 <= month <= 12
    &&& 1 <= day <= days_in_month(year as int, month as int)
}

/// The decimal digit `d`.
pub open spec fn digit_char(d: int) -> char {
    (48 + d) as char
}

/// The decimal digits of `n`, without leading zeros.
pub open spec fn decimal_digits(n: nat) -> Seq<char>
    decreases n,
{
    if n < 10 {
        seq![digit_char(n as int)]
    } else {
        decimal_digits(n / 10).push(digit_char((n % 10) as int))
    }
}

/// The decimal digits of `n`, padded with zeros on the left to `width` characters.
pub open spec fn zero_padded(n: nat, width: nat) -> Seq<char> {
    let d = decimal_digits(n);
    if d.len() >= width {
        d
    } else {
        Seq::new((width - d.len()) as nat, |i: int| '0') + d
    }
}

/// The year as ISO 8601 writes it: four digits for the years 0 to 9999, a sign
/// and at least four digits for the others.
pub open spec fn year_text(year: int) -> Seq<char> {
    if 0 <= year <= 9999 {
        zero_padded(year as nat, 4)
    } else if year > 9999 {
        seq!['+'] + zero_padded(year as nat, 4)
    } else {
        seq!['-'] + zero_padded((-year) as nat, 4)
    }
}

/// The date in the ISO 8601 form `YYYY-MM-DD`.
pub open spec fn iso_date_text(year: i32, month: u32, day: u32) -> Seq<char> {
    year_text(year as int) + seq!['-'] + zero_padded(month as nat, 2) + seq!['-'] + zero_padded(
        day as nat,
        2,
    )
}

/// The text of a calendar date: calls `chrono::NaiveDate::from_ymd_opt`,
/// which is `None` exactly where the day does not exist or is out of range, and
/// writes the date with `NaiveDate`'s `Display`, which chrono documents as the
/// ISO 8601 `%Y-%m-%d` form (a sign and at least four digits for years outside
/// 0..=9999).
#[verifier::external_body]
pub fn calendar_date_text(year: i32, month: u32, day: u32) -> (r: Option<String>)
    ensures
        match r {
            Some(t) => is_calendar_date(year, month, day) && t@ == iso_date_text(year, month, day),
            None => !is_calendar_date(year, month, day),
        },
{
    match chrono::NaiveDate::from_ymd_opt(year, month, day) {
        Some(d) => Some(d.to_string()),
        None => None,
    }
}

} // verus!
