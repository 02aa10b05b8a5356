//! Helpers shared by the sheet parsers: month names, the month of an ISO
//! date, bank account symbols, and reading typed values out of cells.
use vstd::prelude::*;
use vstd::string::StringExecFns;
use spreadsheet_ods::Sheet;

use super::sheet::{
    calendar_date_text, cell_at, cell_value, is_calendar_date, iso_date_text, note_paragraph,
    note_paragraph_count, sheet_notes, CellValue, CellView,
};
use crate::text::{char_vec, count_of, find_char, first_index_of, same_text};

verus! {

// ---------------------------------------------------------------------------
// Months.
// ---------------------------------------------------------------------------

/// The English name of month `month` (1 = January), or `None` outside 1..=12.
pub open spec fn spec_month_name(month: int) -> Option<Seq<char>> {
    if month == 1 {
        Some("January"@)
    } else if month == 2 {
        Some("February"@)
    } else if month == 3 {
        Some("March"@)
    } else if month == 4 {
        Some("April"@)
    } else if month == 5 {
        Some("May"@)
    } else if month == 6 {
        Some("June"@)
    } else if month == 7 {
        Some("July"@)
    } else if month == 8 {
        Some("August"@)
    } else if month == 9 {
        Some("September"@)
    } else if month == 10 {
        Some("October"@)
    } else if month == 11 {
        Some("November"@)
    } else if month == 12 {
        Some("December"@)
    } else {
        None
    }
}

/// `s` is the English name of a month.
pub open spec fn spec_is_month(s: Seq<char>) -> bool {
    exists|m: int| 1 <= m <= 12 && spec_month_name(m) == Some(s)
}

/// The name of month `month` (1 = January), or `None` outside 1..=12.
pub fn month_name(month: u8) -> (r: Option<&'static str>)
    ensures
        match r {
            Some(s) => spec_month_name(month as int) == Some(s@),
            None => spec_month_name(month as int) is None,
        },
{
    match month {
        1 => Some("January"),
        2 => Some("February"),
        3 => Some("March"),
        4 => Some("April"),
        5 => Some("May"),
        6 => Some("June"),
        7 => Some("July"),
        8 => Some("August"),
        9 => Some("September"),
        10 => Some("October"),
        11 => Some("November"),
        12 => Some("December"),
        _ => None,
    }
}

/// True when `value` is the English name of a month.
pub fn is_month(value: &str) -> (r: bool)
    ensures
        r == spec_is_month(value@),
{
    let mut m: u8 = 1;
    while m <= 12
        invariant
            1 <= m <= 13,
            forall|k: int| 1 <= k < m ==> spec_month_name(k) != Some(value@),
        decreases 13 - m,
    {
        match month_name(m) {
            Some(name) => {
                if same_text(name, value) {
                    return true;
                }
            },
            None => {},
        }
        m = m + 1;
    }
    assert forall|k: int| 1 <= k <= 12 implies spec_month_name(k) != Some(value@) by {}
    false
}

/// True when a sheet named `sheet_name` is one the month selection asks
/// for: the named month's sheet, or any month sheet when no month is selected.
pub fn sheet_matches_month_selection(sheet_name: &str, selected_month: Option<u8>) -> (r: bool)
    ensures
        r == match selected_month {
            Some(m) => spec_month_name(m as int) == Some(sheet_name@),
            None => spec_is_month(sheet_name@),
        },
{
    match selected_month {
        Some(month) => match month_name(month) {
            Some(name) => same_text(name, sheet_name),
            None => false,
        },
        None => is_month(sheet_name),
    }
}

/// Months are numbered 1 to 12, each has a name, and no two share one.
pub proof fn law_month_names(a: int, b: int)
    ensures
        spec_month_name(a) is Some <==> 1 <= a <= 12,
        1 <= a <= 12 ==> spec_is_month(spec_month_name(a).unwrap()),
        spec_month_name(a) is Some && spec_month_name(a) == spec_month_name(b) ==> a == b,
{
    reveal_strlit("January");
    reveal_strlit("February");
    reveal_strlit("March");
    reveal_strlit("April");
    reveal_strlit("May");
    reveal_strlit("June");
    reveal_strlit("July");
    reveal_strlit("August");
    reveal_strlit("September");
    reveal_strlit("October");
    reveal_strlit("November");
    reveal_strlit("December");
    if spec_month_name(a) is Some && spec_month_name(a) == spec_month_name(b) {
        // The length and the first and third letters tell the months apart.
        let x = spec_month_name(a).unwrap();
        let y = spec_month_name(b).unwrap();
        assert(x.len() == y.len() && x[0] == y[0] && x[2] == y[2]);
    }
}

/// Month `m` is named by the `m`-th month of the calendar, January to
/// December in order; no other number names a month.
pub proof fn law_month_names_follow_the_calendar()
    ensures
        spec_month_name(1) == Some("January"@),
        spec_month_name(2) == Some("February"@),
        spec_month_name(3) == Some("March"@),
        spec_month_name(4) == Some("April"@),
        spec_month_name(5) == Some("May"@),
        spec_month_name(6) == Some("June"@),
        spec_month_name(7) == Some("July"@),
        spec_month_name(8) == Some("August"@),
        spec_month_name(9) == Some("September"@),
        spec_month_name(10) == Some("October"@),
        spec_month_name(11) == Some("November"@),
        spec_month_name(12) == Some("December"@),
        forall|m: int| !(1 <= m <= 12) ==> #[trigger] spec_month_name(m) is None,
{
}

/// The savings sheet's name is no month's name, so a sheet is read either as
/// the savings sheet or as a month's sheet, never as both.
pub proof fn law_savings_is_not_a_month()
    ensures
        !spec_is_month("Savings"@),
{
    reveal_strlit("Savings");
    reveal_strlit("January");
    reveal_strlit("February");
    reveal_strlit("March");
    reveal_strlit("April");
    reveal_strlit("May");
    reveal_strlit("June");
    reveal_strlit("July");
    reveal_strlit("August");
    reveal_strlit("September");
    reveal_strlit("October");
    reveal_strlit("November");
    reveal_strlit("December");
    assert forall|m: int| 1 <= m <= 12 implies spec_month_name(m) != Some("Savings"@) by {
        assert("Savings"@.len() == 7);
        assert("Savings"@[0] == 'S');
    }
}

// ---------------------------------------------------------------------------
// The month of an ISO date.
// ---------------------------------------------------------------------------

/// An ASCII decimal digit.
pub open spec fn is_ascii_digit(c: char) -> bool {
    48 <= (c as u32) <= 57
}

/// Every character of `s` is an ASCII digit.
pub open spec fn all_digits(s: Seq<char>) -> bool {
    forall|i: int| 0 <= i < s.len() ==> is_ascii_digit(#[trigger] s[i])
}

/// The value of the decimal digits `s`.
pub open spec fn digits_value(s: Seq<char>) -> nat
    decreases s.len(),
{
    if s.len() == 0 {
        0
    } else {
        digits_value(s.drop_last()) * 10 + ((s.last() as u32) - 48) as nat
    }
}

/// The `u8` that `s` spells as `str::parse::<u8>` reads it: an optional `+`,
/// then one or more ASCII digits whose value is at most 255.
pub open spec fn spec_parse_u8(s: Seq<char>) -> Option<u8> {
    let d = if s.len() > 0 && s[0] == '+' {
        s.drop_first()
    } else {
        s
    };
    if d.len() > 0 && all_digits(d) && digits_value(d) <= 255 {
        Some(digits_value(d) as u8)
    } else {
        None
    }
}

/// The month field of a date written `year-month-day`: the text between the
/// first and the second `-`.
pub open spec fn month_field(date: Seq<char>) -> Seq<char> {
    let rest = date.skip(first_index_of(date, '-') + 1);
    rest.take(first_index_of(rest, '-'))
}

/// The month of a date written `year-month-day` (exactly two `-`), when its
/// month field reads as a number from 1 to 12.
pub open spec fn spec_month_number(date: Seq<char>) -> Option<u8> {
    if count_of(date, '-') != 2 {
        None
    } else {
        match spec_parse_u8(month_field(date)) {
            Some(n) => if 1 <= n <= 12 {
                Some(n)
            } else {
                None
            },
            None => None,
        }
    }
}

proof fn lemma_count_prefix(s: Seq<char>, c: char, i: int)
    requires
        0 <= i < s.len(),
    ensures
        count_of(s.take(i + 1), c) == count_of(s.take(i), c) + if s[i] == c { 1nat } else { 0nat },
{
    assert(s.take(i + 1).drop_last() =~= s.take(i));
}

proof fn lemma_digits_step(s: Seq<char>, i: int)
    requires
        0 <= i < s.len(),
    ensures
        digits_value(s.take(i + 1)) == digits_value(s.take(i)) * 10 + ((s[i] as u32) - 48) as nat,
{
    assert(s.take(i + 1).drop_last() =~= s.take(i));
}

/// Reads `cs[lo..hi]` as `str::parse::<u8>` does.
fn parse_u8(cs: &Vec<char>, lo: usize, hi: usize) -> (r: Option<u8>)
    requires
        lo <= hi <= cs.len(),
    ensures
        r == spec_parse_u8(cs@.subrange(lo as int, hi as int)),
{
    let ghost s = cs@.subrange(lo as int, hi as int);
    let mut start = lo;
    if lo < hi && cs[lo] == '+' {
        start = lo + 1;
    }
    let ghost d = cs@.subrange(start as int, hi as int);
    proof {
        if lo < hi && cs@[lo as int] == '+' {
            assert(s.drop_first() =~= d);
        } else {
            assert(s =~= d);
        }
    }
    if start == hi {
        return None;
    }
    // `value` is the value of the digits read so far, capped at 256.
    let mut value: u32 = 0;
    let mut i = start;
    while i < hi
        invariant
            lo <= start <= i <= hi <= cs.len(),
            d == cs@.subrange(start as int, hi as int),
            d.len() > 0,
            s == cs@.subrange(lo as int, hi as int),
            (s.len() > 0 && s[0] == '+') ==> s.drop_first() == d,
            !(s.len() > 0 && s[0] == '+') ==> s == d,
            forall|j: int| 0 <= j < i - start ==> is_ascii_digit(d[j]),
            value <= 256,
            value == if digits_value(d.take(i - start)) < 256 {
                digits_value(d.take(i - start))
            } else {
                256
            },
        decreases hi - i,
    {
        let c = cs[i];
        let n = c as u32;
        if n < 48 || n > 57 {
            proof {
                assert(d[i - start] == c);
                assert(!is_ascii_digit(d[i - start]));
                assert(!all_digits(d));
            }
            return None;
        }
        proof {
            lemma_digits_step(d, i - start);
            assert(d[i - start] == c);
        }
        if value >= 26 {
            value = 256;
        } else {
            value = value * 10 + (n - 48);
            if value > 256 {
                value = 256;
            }
        }
        i = i + 1;
    }
    proof {
        assert(d.take(hi - start) =~= d);
    }
    if value <= 255 {
        Some(value as u8)
    } else {
        None
    }
}

/// The month of a date written `year-month-day` (see [`spec_month_number`]).
fn extract_month_number(date: &str) -> (r: Option<u8>)
    ensures
        r == spec_month_number(date@),
{
    let cs = char_vec(date);
    let n = cs.len();
    // Count the dashes and find the first two.
    let mut dashes: usize = 0;
    let mut first: usize = n;
    let mut second: usize = n;
    let mut i: usize = 0;
    while i < n
        invariant
            cs@ == date@,
            n == cs.len(),
            i <= n,
            dashes <= i,
            dashes == count_of(cs@.take(i as int), '-'),
            dashes == 0 ==> first == n,
            dashes >= 1 ==> first < i && cs@[first as int] == '-' && first == first_index_of(cs@, '-'),
            dashes <= 1 ==> second == n,
            dashes >= 2 ==> first < second < i && cs@[second as int] == '-'
                && second == first + 1 + first_index_of(cs@.skip(first + 1), '-'),
            forall|j: int| 0 <= j < i && dashes == 0 ==> cs@[j] != '-',
            forall|j: int| first < j < i && dashes == 1 ==> cs@[j] != '-',
        decreases n - i,
    {
        proof {
            lemma_count_prefix(cs@, '-', i as int);
        }
        if cs[i] == '-' {
            if dashes == 0 {
                first = i;
                proof {
                    crate::text::lemma_first_index_of_is_least(cs@, '-', i as int);
                }
            } else if dashes == 1 {
                second = i;
                proof {
                    let rest = cs@.skip(first + 1);
                    assert forall|j: int| 0 <= j < i - first - 1 implies rest[j] != '-' by {
                        assert(rest[j] == cs@[first + 1 + j]);
                    }
                    crate::text::lemma_first_index_of_is_least(rest, '-', i - first - 1);
                }
            }
            dashes = dashes + 1;
        }
        i = i + 1;
    }
    proof {
        assert(cs@.take(n as int) =~= cs@);
    }
    if dashes != 2 {
        return None;
    }
    proof {
        let rest = cs@.skip(first + 1);
        assert(rest.take(first_index_of(rest, '-')) =~= cs@.subrange(first + 1, second as int));
    }
    match parse_u8(&cs, first + 1, second) {
        Some(m) => if 1 <= m && m <= 12 {
            Some(m)
        } else {
            None
        },
        None => None,
    }
}

/// The month read from a date is always a month from 1 to 12.
pub proof fn law_month_number_in_range(date: Seq<char>)
    ensures
        spec_month_number(date) matches Some(n) ==> 1 <= n <= 12,
{
}

/// True when `date` lies in the selected month, or when no month is selected.
pub fn date_matches_month(date: &str, selected_month: Option<u8>) -> (r: bool)
    ensures
        r == match selected_month {
            Some(m) => spec_month_number(date@) == Some(m),
            None => true,
        },
{
    match selected_month {
        Some(month) => match extract_month_number(date) {
            Some(m) => m == month,
            None => false,
        },
        None => true,
    }
}

// ---------------------------------------------------------------------------
// Bank accounts.
// ---------------------------------------------------------------------------

/// The bank account that a symbol in the spending sheet's account column
/// stands for; "NatWest" when the column is empty, "Unknown" for a symbol
/// that stands for no account.
pub open spec fn spec_bank_account_name(symbol: Option<Seq<char>>) -> Seq<char> {
    match symbol {
        None => "NatWest"@,
        Some(s) => if s == "X"@ {
            "AmEx"@
        } else if s == "B"@ {
            "Barclays"@
        } else if s == "W"@ {
            "Wise Virtual"@
        } else if s == "M"@ {
            "Monzo"@
        } else if s == "A"@ {
            "Wise Physical"@
        } else {
            "Unknown"@
        },
    }
}

/// The bank account that `symbol` stands for (see [`spec_bank_account_name`]).
pub fn bank_account_symbol_to_name(symbol: Option<String>) -> (r: String)
    ensures
        r@ == spec_bank_account_name(crate::payload::types::opt_text(symbol)),
{
    match symbol {
        Some(ref name) => {
            let s = name.as_str();
            if same_text(s, "X") {
                "AmEx".to_owned()
            } else if same_text(s, "B") {
                "Barclays".to_owned()
            } else if same_text(s, "W") {
                "Wise Virtual".to_owned()
            } else if same_text(s, "M") {
                "Monzo".to_owned()
            } else if same_text(s, "A") {
                "Wise Physical".to_owned()
            } else {
                "Unknown".to_owned()
            }
        },
        None => "NatWest".to_owned(),
    }
}

/// The account symbols stand for fixed accounts: X for AmEx, B for
/// Barclays, W for Wise Virtual, M for Monzo, A for Wise Physical; an empty
/// symbol column stands for NatWest, and any other symbol for "Unknown".
pub proof fn law_bank_symbols_follow_the_table(symbol: Seq<char>)
    ensures
        spec_bank_account_name(None) == "NatWest"@,
        spec_bank_account_name(Some("X"@)) == "AmEx"@,
        spec_bank_account_name(Some("B"@)) == "Barclays"@,
        spec_bank_account_name(Some("W"@)) == "Wise Virtual"@,
        spec_bank_account_name(Some("M"@)) == "Monzo"@,
        spec_bank_account_name(Some("A"@)) == "Wise Physical"@,
        symbol != "X"@ && symbol != "B"@ && symbol != "W"@ && symbol != "M"@ && symbol != "A"@
            ==> spec_bank_account_name(Some(symbol)) == "Unknown"@,
{
    reveal_strlit("X");
    reveal_strlit("B");
    reveal_strlit("W");
    reveal_strlit("M");
    reveal_strlit("A");
    assert("X"@[0] == 'X' && "B"@[0] == 'B' && "W"@[0] == 'W' && "M"@[0] == 'M' && "A"@[0] == 'A');
}

// ---------------------------------------------------------------------------
// Typed values of cells.
// ---------------------------------------------------------------------------

/// A cell read as a date: a date-time cell gives its calendar date in the ISO
/// form, a text cell its text; other cells give none.
pub open spec fn date_of(c: CellView) -> Option<Seq<char>> {
    match c {
        CellView::DateTime { year, month, day } => if is_calendar_date(year, month, day) {
            Some(iso_date_text(year, month, day))
        } else {
            None
        },
        CellView::Text(s) => Some(s),
        _ => None,
    }
}

/// A cell read as an amount (the bits of its `f64`): number and currency
/// cells give one; other cells give none.
pub open spec fn amount_of(c: CellView) -> Option<u64> {
    match c {
        CellView::Number(b) => Some(b),
        CellView::Currency(b) => Some(b),
        _ => None,
    }
}

/// A cell read as text: a text cell that is not empty gives its text.
pub open spec fn text_of(c: CellView) -> Option<Seq<char>> {
    match c {
        CellView::Text(s) => if s.len() > 0 {
            Some(s)
        } else {
            None
        },
        _ => None,
    }
}

/// The concatenation of `parts`, in order.
pub open spec fn concat_all(parts: Seq<Seq<char>>) -> Seq<char>
    decreases parts.len(),
{
    if parts.len() == 0 {
        Seq::empty()
    } else {
        concat_all(parts.drop_last()) + parts.last()
    }
}

/// The text of a cell's annotation: the text of its paragraphs, joined
/// without separator; none where the cell has no annotation.
pub open spec fn note_of(sheet: Sheet, row: u32, col: u32) -> Option<Seq<char>> {
    if sheet_notes(sheet).dom().contains((row, col)) {
        Some(concat_all(sheet_notes(sheet)[(row, col)]))
    } else {
        None
    }
}

/// The date in a cell (see [`date_of`]).
pub fn extract_date(sheet: &Sheet, row: u32, col: u32) -> (r: Option<String>)
    ensures
        crate::payload::types::opt_text(r) == date_of(cell_at(*sheet, row, col)),
{
    match cell_value(sheet, row, col) {
        CellValue::DateTime { year, month, day } => calendar_date_text(year, month, day),
        CellValue::Text(s) => Some(s),
        _ => None,
    }
}

/// The amount in a cell (see [`amount_of`]).
pub fn extract_amount(sheet: &Sheet, row: u32, col: u32) -> (r: Option<u64>)
    ensures
        r == amount_of(cell_at(*sheet, row, col)),
{
    match cell_value(sheet, row, col) {
        CellValue::Number(b) => Some(b),
        CellValue::Currency(b) => Some(b),
        _ => None,
    }
}

/// The non-empty text in a cell (see [`text_of`]).
pub fn extract_text(sheet: &Sheet, row: u32, col: u32) -> (r: Option<String>)
    ensures
        crate::payload::types::opt_text(r) == text_of(cell_at(*sheet, row, col)),
{
    match cell_value(sheet, row, col) {
        CellValue::Text(s) => if s.as_str().is_empty() {
            None
        } else {
            Some(s)
        },
        _ => None,
    }
}

/// The text of a cell's annotation (see [`note_of`]).
pub fn extract_annotation(sheet: &Sheet, row: u32, col: u32) -> (r: Option<String>)
    ensures
        crate::payload::types::opt_text(r) == note_of(*sheet, row, col),
{
    match note_paragraph_count(sheet, row, col) {
        Some(n) => {
            let ghost parts = sheet_notes(*sheet)[(row, col)];
            let mut text = String::new();
            let mut i: usize = 0;
            while i < n
                invariant
                    sheet_notes(*sheet).dom().contains((row, col)),
                    parts == sheet_notes(*sheet)[(row, col)],
                    n == parts.len(),
                    i <= n,
                    text@ == concat_all(parts.take(i as int)),
                decreases n - i,
            {
                let p = note_paragraph(sheet, row, col, i);
                text.append(p.as_str());
                proof {
                    assert(parts.take(i + 1).drop_last() =~= parts.take(i as int));
                }
                i = i + 1;
            }
            proof {
                assert(parts.take(n as int) =~= parts);
            }
            Some(text)
        },
        None => None,
    }
}

// ---------------------------------------------------------------------------
// Dates read from date cells.
// ---------------------------------------------------------------------------

proof fn lemma_digit_char(d: int)
    requires
        0 <= d < 10,
    ensures
        is_ascii_digit(super::sheet::digit_char(d)),
        (super::sheet::digit_char(d) as u32) - 48 == d,
{
}

proof fn lemma_decimal_digits(n: nat)
    ensures
        all_digits(super::sheet::decimal_digits(n)),
        super::sheet::decimal_digits(n).len() >= 1,
        n < 10 ==> super::sheet::decimal_digits(n).len() == 1,
        10 <= n < 100 ==> super::sheet::decimal_digits(n).len() == 2,
        n < 100 ==> digits_value(super::sheet::decimal_digits(n)) == n,
    decreases n,
{
    let ds = super::sheet::decimal_digits(n);
    if n < 10 {
        lemma_digit_char(n as int);
        assert(ds.drop_last() =~= Seq::<char>::empty());
        assert(digits_value(Seq::<char>::empty()) == 0);
        assert(ds.last() == super::sheet::digit_char(n as int));
    } else {
        lemma_decimal_digits(n / 10);
        lemma_digit_char((n % 10) as int);
        let init = super::sheet::decimal_digits(n / 10);
        assert(ds.drop_last() =~= init);
        assert forall|i: int| 0 <= i < ds.len() implies is_ascii_digit(#[trigger] ds[i]) by {
            if i < init.len() {
                assert(ds[i] == init[i]);
            }
        }
        if n < 100 {
            assert(n / 10 < 10);
            assert(digits_value(ds) == digits_value(init) * 10 + (n % 10));
            assert((n / 10) * 10 + n % 10 == n) by (nonlinear_arith);
        }
    }
}

proof fn lemma_zero_padded(n: nat, width: nat)
    ensures
        all_digits(super::sheet::zero_padded(n, width)),
        super::sheet::zero_padded(n, width).len() >= 1,
        n < 100 && width == 2 ==> super::sheet::zero_padded(n, width).len() == 2 && digits_value(
            super::sheet::zero_padded(n, width),
        ) == n,
{
    lemma_decimal_digits(n);
    let d = super::sheet::decimal_digits(n);
    let z = super::sheet::zero_padded(n, width);
    if d.len() < width {
        let pad = Seq::new((width - d.len()) as nat, |i: int| '0');
        assert forall|i: int| 0 <= i < z.len() implies is_ascii_digit(#[trigger] z[i]) by {
            if i >= pad.len() {
                assert(z[i] == d[i - pad.len()]);
            }
        }
        if n < 100 && width == 2 {
            assert(z.drop_last() =~= seq!['0']);
            assert(seq!['0'].drop_last() =~= Seq::<char>::empty());
            assert(digits_value(Seq::<char>::empty()) == 0);
            assert(seq!['0'].last() == '0');
            assert(digits_value(seq!['0']) == 0);
            assert(d.drop_last() =~= Seq::<char>::empty());
            assert(z.last() == d.last());
            assert(digits_value(d) == n);
            assert(digits_value(z) == digits_value(seq!['0']) * 10 + ((d.last() as u32) - 48) as nat);
        }
    }
}

proof fn lemma_no_dash(s: Seq<char>)
    requires
        all_digits(s),
    ensures
        count_of(s, '-') == 0,
        first_index_of(s, '-') == s.len(),
    decreases s.len(),
{
    if s.len() > 0 {
        assert(all_digits(s.drop_last())) by {
            assert forall|i: int| 0 <= i < s.drop_last().len() implies is_ascii_digit(#[trigger] s.drop_last()[i]) by {
                assert(s.drop_last()[i] == s[i]);
            }
        }
        lemma_no_dash(s.drop_last());
        assert(is_ascii_digit(s[s.len() - 1]));
        assert(s.last() != '-');
        crate::text::lemma_first_index_of_is_least(s, '-', s.len() as int);
    }
}

/// `first_index_of` finds a separator right after a part that does not hold it.
proof fn lemma_first_dash_after(a: Seq<char>, b: Seq<char>)
    requires
        first_index_of(a, '-') == a.len(),
    ensures
        first_index_of(a + seq!['-'] + b, '-') == a.len(),
        (a + seq!['-'] + b).skip(a.len() as int + 1) == b,
{
    let s = a + seq!['-'] + b;
    crate::text::lemma_first_index_of_bounds(a, '-');
    assert forall|j: int| 0 <= j < a.len() implies s[j] != '-' by {
        assert(s[j] == a[j]);
    }
    crate::text::lemma_first_index_of_is_least(s, '-', a.len() as int);
    assert(s.skip(a.len() as int + 1) =~= b);
}

/// The month filter reads back the month of every date that a date cell of a
/// year from 0 on is written as: such a date lies in its own month.
pub proof fn law_date_cells_lie_in_their_month(year: i32, month: u32, day: u32)
    requires
        is_calendar_date(year, month, day),
        0 <= year,
    ensures
        spec_month_number(iso_date_text(year, month, day)) == Some(month as u8),
{
    let y = super::sheet::year_text(year as int);
    let m = super::sheet::zero_padded(month as nat, 2);
    let d = super::sheet::zero_padded(day as nat, 2);
    lemma_zero_padded(month as nat, 2);
    lemma_zero_padded(day as nat, 2);
    // The year part holds digits, and a `+` for years past 9999.
    if year <= 9999 {
        lemma_zero_padded(year as nat, 4);
        lemma_no_dash(y);
    } else {
        let z = super::sheet::zero_padded(year as nat, 4);
        lemma_zero_padded(year as nat, 4);
        lemma_no_dash(z);
        crate::text::lemma_count_of_concat(seq!['+'], z, '-');
        assert(seq!['+'].drop_last() =~= Seq::<char>::empty());
        assert(count_of(Seq::<char>::empty(), '-') == 0);
        assert(count_of(seq!['+'], '-') == 0);
        assert forall|j: int| 0 <= j < y.len() implies y[j] != '-' by {
            if j > 0 {
                assert(y[j] == z[j - 1]);
                crate::text::lemma_first_index_of_bounds(z, '-');
            }
        }
        crate::text::lemma_first_index_of_is_least(y, '-', y.len() as int);
    }
    lemma_no_dash(m);
    lemma_no_dash(d);
    let date = y + seq!['-'] + m + seq!['-'] + d;
    assert(date == iso_date_text(year, month, day));
    // Exactly two dashes.
    assert(seq!['-'].drop_last() =~= Seq::<char>::empty());
    assert(count_of(Seq::<char>::empty(), '-') == 0);
    assert(count_of(seq!['-'], '-') == 1);
    assert(count_of(y, '-') == 0);
    crate::text::lemma_count_of_concat(y, seq!['-'], '-');
    crate::text::lemma_count_of_concat(y + seq!['-'], m, '-');
    crate::text::lemma_count_of_concat(y + seq!['-'] + m, seq!['-'], '-');
    crate::text::lemma_count_of_concat(y + seq!['-'] + m + seq!['-'], d, '-');
    // The month field.
    assert(date =~= y + seq!['-'] + (m + seq!['-'] + d));
    lemma_first_dash_after(y, m + seq!['-'] + d);
    lemma_first_dash_after(m, d);
    let rest = m + seq!['-'] + d;
    assert(rest.take(m.len() as int) =~= m);
    assert(month_field(date) == m);
    assert(count_of(date, '-') == 2);
    assert(is_ascii_digit(m[0]));
    assert(m[0] != '+');
    assert(spec_parse_u8(m) == Some(month as u8));
}

} // verus!
