use crate::data_loader::number::check_blank;
use crate::data_loader::number::chars_of;
use crate::data_loader::number::copy_range;
use crate::data_loader::number::decimal_value;
use crate::data_loader::number::is_blank;
use crate::data_loader::number::parse_decimal;
use crate::data_loader::number::remove_all;
use crate::data_loader::number::without;
use crate::data_loader::number::ParseError;
use chrono::NaiveDate;
use vstd::prelude::*;

verus! {

/// A calendar date of `chrono`. The engine never looks inside one: it only
/// carries the date of a price record over to the trades made on that day.
#[verifier::external_type_specification]
#[verifier::external_body]
pub struct ExNaiveDate(chrono::NaiveDate);

/// One dated observation of the instrument. Decimal fields are counted in
/// millionths; a field that the source left empty is `None`.
#[derive(Debug, Clone, Copy)]
pub struct MarketData {
    pub date: NaiveDate,
    pub price: Option<u64>,
    pub open: Option<u64>,
    pub high: Option<u64>,
    pub low: Option<u64>,
    pub volume: Option<u64>,
    pub change_percent: Option<i64>,
}

impl MarketData {
    /// The closing price that the engine works with: a missing price counts as zero.
    pub open spec fn closing_price(self) -> u64 {
        match self.price {
            Some(p) => p,
            None => 0,
        }
    }

    /// Executable form of [`MarketData::closing_price`].
    pub fn price_or_zero(&self) -> (p: u64)
        ensures
            p == self.closing_price(),
    {
        match self.price {
            Some(p) => p,
            None => 0,
        }
    }
}

/// The closing prices of a series, in order, with missing prices as zero.
pub open spec fn closing_prices(data: Seq<MarketData>) -> Seq<u64> {
    Seq::new(data.len(), |i: int| data[i].closing_price())
}

/// How much of the first `k` characters is left when the characters at the
/// end that equal `a`, `b` or `c` are cut off.
pub open spec fn trimmed_len(s: Seq<char>, k: int, a: char, b: char, c: char) -> int
    decreases k,
{
    if k <= 0 {
        0
    } else if s[k - 1] == a || s[k - 1] == b || s[k - 1] == c {
        trimmed_len(s, k - 1, a, b, c)
    } else {
        k
    }
}

/// The text without the characters at its end that equal `a`, `b` or `c`.
pub open spec fn trimmed(s: Seq<char>, a: char, b: char, c: char) -> Seq<char> {
    s.take(trimmed_len(s, s.len() as int, a, b, c))
}

/// Cuts off the characters at the end that equal `a`, `b` or `c`.
pub fn trim_end(s: &[char], a: char, b: char, c: char) -> (kept: Vec<char>)
    ensures
        kept@ == trimmed(s@, a, b, c),
{
    let mut k: usize = s.len();
    while k > 0 && (s[k - 1] == a || s[k - 1] == b || s[k - 1] == c)
        invariant
            k <= s.len(),
            trimmed_len(s@, k as int, a, b, c) == trimmed_len(s@, s.len() as int, a, b, c),
        decreases k,
    {
        k -= 1;
    }
    copy_range(s, 0, k)
}

/// What a plain number field holds: nothing where the field is absent or
/// blank once its thousands separators are removed; else the number, which
/// must not be negative.
pub open spec fn number_field(text: Option<Seq<char>>) -> Result<Option<u64>, ParseError> {
    match text {
        None => Ok(None),
        Some(t) => {
            let clean = without(t, ',', t.len() as int);
            if is_blank(clean) {
                Ok(None)
            } else {
                match decimal_value(clean) {
                    None => Err(ParseError::InvalidNumber),
                    Some(v) => if 0 <= v <= u64::MAX {
                        Ok(Some(v as u64))
                    } else {
                        Err(ParseError::OutOfRange)
                    },
                }
            }
        },
    }
}

/// By how much the last character of a volume multiplies it: `K` is a
/// thousand, `M` a million, `B` a thousand millions.
pub open spec fn volume_multiplier(s: Seq<char>) -> int {
    if s.len() > 0 && s.last() == 'K' {
        1_000
    } else if s.len() > 0 && s.last() == 'M' {
        1_000_000
    } else if s.len() > 0 && s.last() == 'B' {
        1_000_000_000
    } else {
        1
    }
}

/// What a volume field holds: like a plain number field, but every `K`, `M`
/// and `B` at the end is cut off and the last of them multiplies the number.
pub open spec fn volume_field(text: Option<Seq<char>>) -> Result<Option<u64>, ParseError> {
    match text {
        None => Ok(None),
        Some(t) => {
            let clean = without(t, ',', t.len() as int);
            let body = trimmed(clean, 'K', 'M', 'B');
            if is_blank(body) {
                Ok(None)
            } else {
                match decimal_value(body) {
                    None => Err(ParseError::InvalidNumber),
                    Some(v) => if 0 <= v * volume_multiplier(clean) <= u64::MAX {
                        Ok(Some((v * volume_multiplier(clean)) as u64))
                    } else {
                        Err(ParseError::OutOfRange)
                    },
                }
            }
        },
    }
}

/// What a change field holds: nothing where the field is absent or blank
/// once the percent signs at its end are cut off; else the signed number.
pub open spec fn change_percent_field(text: Option<Seq<char>>) -> Result<Option<i64>, ParseError> {
    match text {
        None => Ok(None),
        Some(t) => {
            let body = trimmed(t, '%', '%', '%');
            if is_blank(body) {
                Ok(None)
            } else {
                match decimal_value(body) {
                    None => Err(ParseError::InvalidNumber),
                    Some(v) => if i64::MIN <= v <= i64::MAX {
                        Ok(Some(v as i64))
                    } else {
                        Err(ParseError::OutOfRange)
                    },
                }
            }
        },
    }
}

/// The characters of a field, where there is one.
pub open spec fn field_text(text: Option<&str>) -> Option<Seq<char>> {
    match text {
        Some(t) => Some(t@),
        None => None,
    }
}

/// Reads a price, an opening, a high or a low.
pub fn parse_optional_number(text: Option<&str>) -> (r: Result<Option<u64>, ParseError>)
    ensures
        r == number_field(field_text(text)),
{
    let t = match text {
        Some(t) => t,
        None => {
            return Ok(None);
        },
    };
    let chars = chars_of(t);
    let clean = remove_all(chars.as_slice(), ',');
    if check_blank(clean.as_slice()) {
        return Ok(None);
    }
    match parse_decimal(clean.as_slice()) {
        Ok(v) => if v >= 0 {
            Ok(Some(v as u64))
        } else {
            Err(ParseError::OutOfRange)
        },
        Err(e) => Err(e),
    }
}

/// Reads a traded volume.
pub fn parse_optional_volume(text: Option<&str>) -> (r: Result<Option<u64>, ParseError>)
    ensures
        r == volume_field(field_text(text)),
{
    let t = match text {
        Some(t) => t,
        None => {
            return Ok(None);
        },
    };
    let chars = chars_of(t);
    let clean = remove_all(chars.as_slice(), ',');
    let n: usize = clean.len();
    let multiplier: i128 = if n > 0 && clean[n - 1] == 'K' {
        1_000
    } else if n > 0 && clean[n - 1] == 'M' {
        1_000_000
    } else if n > 0 && clean[n - 1] == 'B' {
        1_000_000_000
    } else {
        1
    };
    let body = trim_end(clean.as_slice(), 'K', 'M', 'B');
    if check_blank(body.as_slice()) {
        return Ok(None);
    }
    match parse_decimal(body.as_slice()) {
        Ok(v) => {
            assert(-(u64::MAX * 1_000_000_000) <= v * multiplier <= u64::MAX * 1_000_000_000)
                by (nonlinear_arith)
                requires
                    -(u64::MAX as int) <= v <= u64::MAX,
                    1 <= multiplier <= 1_000_000_000,
            ;
            let scaled: i128 = v * multiplier;
            if 0 <= scaled && scaled <= u64::MAX as i128 {
                Ok(Some(scaled as u64))
            } else {
                Err(ParseError::OutOfRange)
            }
        },
        Err(e) => {
            proof {
                if decimal_value(body@) is Some {
                    let v = decimal_value(body@)->Some_0;
                    assert(!(0 <= v * multiplier <= u64::MAX)) by (nonlinear_arith)
                        requires
                            v < -(u64::MAX as int) || v > u64::MAX,
                            1 <= multiplier,
                    ;
                }
            }
            Err(e)
        },
    }
}

/// Reads a change in percent.
pub fn parse_optional_change_percent(text: Option<&str>) -> (r: Result<Option<i64>, ParseError>)
    ensures
        r == change_percent_field(field_text(text)),
{
    let t = match text {
        Some(t) => t,
        None => {
            return Ok(None);
        },
    };
    let chars = chars_of(t);
    let body = trim_end(chars.as_slice(), '%', '%', '%');
    if check_blank(body.as_slice()) {
        return Ok(None);
    }
    match parse_decimal(body.as_slice()) {
        Ok(v) => if i64::MIN as i128 <= v && v <= i64::MAX as i128 {
            Ok(Some(v as i64))
        } else {
            Err(ParseError::OutOfRange)
        },
        Err(e) => Err(e),
    }
}

/// How the source writes its dates: month, day and year, with strokes between.
pub const DATE_FORMAT: &'static str = "%m/%d/%Y";

/// The date that `chrono` reads from `text` by `format`, where it reads one.
pub uninterp spec fn date_of(text: Seq<char>, format: Seq<char>) -> Option<NaiveDate>;

/// Calls `chrono::NaiveDate::parse_from_str`, which reads a date from a text
/// by a format of `strftime` items. The result depends on the two texts
/// alone; a text that does not fit the format, or names no day of the
/// calendar, yields an error, here `None`. Only `DATE_FORMAT` is admitted
/// as the format: with it the date is made from year, month and day, whose
/// ranges are tested before anything is computed from them.
#[verifier::external_body]
fn parse_date(text: &str, format: &str) -> (date: Option<NaiveDate>)
    requires
        format@ == DATE_FORMAT@,
    ensures
        date == date_of(text@, format@),
{
    NaiveDate::parse_from_str(text, format).ok()
}

/// One row of the source, field by field, as text.
#[derive(Debug, Clone)]
pub struct RawRecord {
    pub date: String,
    pub price: Option<String>,
    pub open: Option<String>,
    pub high: Option<String>,
    pub low: Option<String>,
    pub volume: Option<String>,
    pub change_percent: Option<String>,
}

/// The characters of an owned field, where there is one.
pub open spec fn owned_text(text: Option<String>) -> Option<Seq<char>> {
    match text {
        Some(t) => Some(t@),
        None => None,
    }
}

/// Borrows an owned field.
fn borrow_field(text: &Option<String>) -> (r: Option<&str>)
    ensures
        field_text(r) == owned_text(*text),
{
    match text {
        Some(t) => Some(t.as_str()),
        None => None,
    }
}

/// The record that a row stands for once its date has been read: where no
/// date was read the row is invalid for that; else the first field, in the
/// order of the fields, that cannot be read says why; else the record holds
/// the date and what the fields hold.
pub open spec fn record_with(date: Option<NaiveDate>, raw: RawRecord) -> Result<
    MarketData,
    ParseError,
> {
    let price = number_field(owned_text(raw.price));
    let open = number_field(owned_text(raw.open));
    let high = number_field(owned_text(raw.high));
    let low = number_field(owned_text(raw.low));
    let volume = volume_field(owned_text(raw.volume));
    let change = change_percent_field(owned_text(raw.change_percent));
    if date is None {
        Err(ParseError::InvalidDate)
    } else if price is Err {
        Err(price->Err_0)
    } else if open is Err {
        Err(open->Err_0)
    } else if high is Err {
        Err(high->Err_0)
    } else if low is Err {
        Err(low->Err_0)
    } else if volume is Err {
        Err(volume->Err_0)
    } else if change is Err {
        Err(change->Err_0)
    } else {
        Ok(
            MarketData {
                date: date->Some_0,
                price: price->Ok_0,
                open: open->Ok_0,
                high: high->Ok_0,
                low: low->Ok_0,
                volume: volume->Ok_0,
                change_percent: change->Ok_0,
            },
        )
    }
}

/// The record that a row stands for: `record_with` the date that is read
/// from the row's date text.
pub open spec fn record_of(raw: RawRecord) -> Result<MarketData, ParseError> {
    record_with(date_of(raw.date@, DATE_FORMAT@), raw)
}

/// Makes the record of a row whose date has been read already, or not.
pub fn assemble_record(date: Option<NaiveDate>, raw: &RawRecord) -> (r: Result<
    MarketData,
    ParseError,
>)
    ensures
        r == record_with(date, *raw),
{
    let date = match date {
        Some(date) => date,
        None => {
            return Err(ParseError::InvalidDate);
        },
    };
    let price = match parse_optional_number(borrow_field(&raw.price)) {
        Ok(v) => v,
        Err(e) => {
            return Err(e);
        },
    };
    let open = match parse_optional_number(borrow_field(&raw.open)) {
        Ok(v) => v,
        Err(e) => {
            return Err(e);
        },
    };
    let high = match parse_optional_number(borrow_field(&raw.high)) {
        Ok(v) => v,
        Err(e) => {
            return Err(e);
        },
    };
    let low = match parse_optional_number(borrow_field(&raw.low)) {
        Ok(v) => v,
        Err(e) => {
            return Err(e);
        },
    };
    let volume = match parse_optional_volume(borrow_field(&raw.volume)) {
        Ok(v) => v,
        Err(e) => {
            return Err(e);
        },
    };
    let change_percent = match parse_optional_change_percent(borrow_field(&raw.change_percent)) {
        Ok(v) => v,
        Err(e) => {
            return Err(e);
        },
    };
    Ok(MarketData { date, price, open, high, low, volume, change_percent })
}

/// Reads one row of the source: its date, then its fields.
pub fn parse_record(raw: &RawRecord) -> (r: Result<MarketData, ParseError>)
    ensures
        r == record_of(*raw),
{
    let date = parse_date(raw.date.as_str(), DATE_FORMAT);
    assemble_record(date, raw)
}

} // verus!
