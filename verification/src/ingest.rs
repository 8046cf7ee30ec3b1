//! Ingestion: from a table of the dataset to the array that a data source
//! node yields.
//!
//! Reading a file is not done here. What comes out of a file is handed over
//! as cells of text, each with the number it was read as, and is turned into
//! an array under the element type that the node declares.

use vstd::prelude::*;
use vstd::string::*;
use crate::number::Binary64;
use crate::value::{ElementType, Payload, Value};

verus! {

/// A table of the dataset: a file to read a column from, or a value given
/// outright.
#[derive(Debug)]
pub enum Table {
    FilePath { path: String },
    Literal { value: Value },
}

/// A table with the name it goes by.
#[derive(Debug)]
pub struct NamedTable {
    pub id: String,
    pub table: Table,
}

/// A dataset: its tables. Of two tables with one name the first counts.
#[derive(Debug)]
pub struct Dataset {
    pub tables: Vec<NamedTable>,
}

/// Why a data source yields nothing.
#[derive(Clone, Copy, Debug, PartialEq, Eq, Structural)]
pub enum IngestionError {
    /// The dataset has no table of that name.
    UnknownTable,
    /// The tag names no element type.
    UnknownDatatype,
    /// The header has no column of that name.
    MissingColumn,
    /// A cell does not read as an element of the declared type.
    Malformed { row: usize },
}

/// Where the data of a data source node comes from.
#[derive(Debug)]
pub enum Source<'a> {
    /// A column of a file, to be read under an element type.
    File { path: &'a String, datatype: ElementType },
    /// A value given outright.
    Inline { value: &'a Value },
}

/// A cell of a column: its text, and the number that the text reads as, if
/// it reads as one.
#[derive(Debug)]
pub struct Cell {
    pub text: String,
    pub number: Option<Binary64>,
}

/// The element type that a tag names.
pub open spec fn datatype_of(tag: Seq<char>) -> Option<ElementType> {
    if tag == "BYTES"@ {
        Some(ElementType::Bytes)
    } else if tag == "BOOL"@ {
        Some(ElementType::Bool)
    } else if tag == "I64"@ {
        Some(ElementType::I64)
    } else if tag == "F64"@ {
        Some(ElementType::F64)
    } else if tag == "STRING"@ {
        Some(ElementType::Str)
    } else {
        None
    }
}

/// The tag of an element type.
pub open spec fn tag_of(datatype: ElementType) -> Seq<char> {
    match datatype {
        ElementType::Bytes => "BYTES"@,
        ElementType::Bool => "BOOL"@,
        ElementType::I64 => "I64"@,
        ElementType::F64 => "F64"@,
        ElementType::Str => "STRING"@,
    }
}

/// Whether a string has exactly the text of a literal.
fn text_is(s: &str, literal: &str) -> (r: bool)
    ensures
        r == (s@ == literal@),
{
    let a: String = String::from_str(s);
    let b: String = String::from_str(literal);
    a == b
}

/// The element type that a tag names: one of `BYTES`, `BOOL`, `I64`, `F64`
/// and `STRING`.
pub fn parse_datatype(tag: &str) -> (r: Result<ElementType, IngestionError>)
    ensures
        match r {
            Ok(datatype) => datatype_of(tag@) == Some(datatype),
            Err(e) => datatype_of(tag@) is None && e == IngestionError::UnknownDatatype,
        },
{
    if text_is(tag, "BYTES") {
        Ok(ElementType::Bytes)
    } else if text_is(tag, "BOOL") {
        Ok(ElementType::Bool)
    } else if text_is(tag, "I64") {
        Ok(ElementType::I64)
    } else if text_is(tag, "F64") {
        Ok(ElementType::F64)
    } else if text_is(tag, "STRING") {
        Ok(ElementType::Str)
    } else {
        Err(IngestionError::UnknownDatatype)
    }
}

/// The tag of an element type. Reading the tag gives the type back.
pub fn datatype_tag(datatype: ElementType) -> (r: &'static str)
    ensures
        r@ == tag_of(datatype),
        datatype_of(r@) == Some(datatype),
{
    proof {
        reveal_strlit("BYTES");
        reveal_strlit("BOOL");
        reveal_strlit("I64");
        reveal_strlit("F64");
        reveal_strlit("STRING");
        assert("BOOL"@ != "BYTES"@) by {
            assert("BOOL"@.len() != "BYTES"@.len());
        }
        assert("I64"@ != "BYTES"@ && "I64"@ != "BOOL"@) by {
            assert("I64"@.len() == 3);
        }
        assert("F64"@ != "BYTES"@ && "F64"@ != "BOOL"@ && "F64"@ != "I64"@) by {
            assert("F64"@[0] == 'F');
            assert("I64"@[0] == 'I');
        }
        assert("STRING"@ != "BYTES"@ && "STRING"@ != "BOOL"@ && "STRING"@ != "I64"@ && "STRING"@
            != "F64"@) by {
            assert("STRING"@.len() == 6);
        }
    }
    match datatype {
        ElementType::Bytes => "BYTES",
        ElementType::Bool => "BOOL",
        ElementType::I64 => "I64",
        ElementType::F64 => "F64",
        ElementType::Str => "STRING",
    }
}

impl Dataset {
    /// The first position at or after `from` of a table called `id`.
    pub open spec fn table_from(self, id: Seq<char>, from: int) -> Option<int>
        decreases self.tables.len() - from,
    {
        if from < 0 || from >= self.tables.len() {
            None
        } else if self.tables[from].id@ == id {
            Some(from)
        } else {
            self.table_from(id, from + 1)
        }
    }

    /// The table called `id`.
    pub open spec fn table(self, id: Seq<char>) -> Option<Table> {
        match self.table_from(id, 0) {
            Some(k) => Some(self.tables[k].table),
            None => None,
        }
    }

    /// The table called `id`.
    pub fn find(&self, id: &str) -> (r: Option<&Table>)
        ensures
            match r {
                Some(t) => self.table(id@) == Some(*t),
                None => self.table(id@) is None,
            },
    {
        let wanted: String = String::from_str(id);
        let mut k: usize = 0;
        while k < self.tables.len()
            invariant
                k <= self.tables.len(),
                wanted@ == id@,
                self.table_from(id@, 0) == self.table_from(id@, k as int),
            decreases self.tables.len() - k,
        {
            if self.tables[k].id == wanted {
                return Some(&self.tables[k].table);
            }
            k += 1;
        }
        None
    }
}

/// Where the data of a data source node comes from: the file of its table,
/// to be read under the declared element type, or the value that the table
/// gives outright.
pub fn locate<'a>(dataset: &'a Dataset, dataset_id: &str, datatype: ElementType) -> (r: Result<
    Source<'a>,
    IngestionError,
>)
    ensures
        match dataset.table(dataset_id@) {
            Some(Table::FilePath { path }) => r matches Ok(Source::File { path: p, datatype: d })
                && *p == path && d == datatype,
            Some(Table::Literal { value }) => r matches Ok(Source::Inline { value: v }) && *v
                == value,
            None => r matches Err(e) && e == IngestionError::UnknownTable,
        },
{
    match dataset.find(dataset_id) {
        Some(Table::FilePath { path }) => Ok(Source::File { path, datatype }),
        Some(Table::Literal { value }) => Ok(Source::Inline { value }),
        None => Err(IngestionError::UnknownTable),
    }
}

/// The last position before `upto` of a column called `name`.
pub open spec fn column_before(header: Seq<String>, name: Seq<char>, upto: int) -> Option<int>
    decreases upto,
{
    if upto <= 0 || upto > header.len() {
        None
    } else if header[upto - 1]@ == name {
        Some(upto - 1)
    } else {
        column_before(header, name, upto - 1)
    }
}

/// The position of the column called `name`: the last one of that name in
/// the header.
pub fn find_column(header: &Vec<String>, name: &str) -> (r: Result<usize, IngestionError>)
    ensures
        match r {
            Ok(k) => column_before(header@, name@, header.len() as int) == Some(k as int),
            Err(e) => column_before(header@, name@, header.len() as int) is None && e
                == IngestionError::MissingColumn,
        },
{
    let wanted: String = String::from_str(name);
    let mut k: usize = header.len();
    while k > 0
        invariant
            k <= header.len(),
            wanted@ == name@,
            column_before(header@, name@, header.len() as int) == column_before(
                header@,
                name@,
                k as int,
            ),
        decreases k,
    {
        if header[k - 1] == wanted {
            return Ok(k - 1);
        }
        k -= 1;
    }
    Err(IngestionError::MissingColumn)
}

/// The number that a string of decimal digits stands for.
pub open spec fn decimal(digits: Seq<char>) -> nat
    decreases digits.len(),
{
    if digits.len() == 0 {
        0
    } else {
        decimal(digits.drop_last()) * 10 + ((digits.last() as u32 - '0' as u32) as nat)
    }
}

/// Whether every character is a decimal digit.
pub open spec fn all_digits(digits: Seq<char>) -> bool {
    forall|i: int| 0 <= i < digits.len() ==> '0' as u32 <= (#[trigger] digits[i]) as u32 <= '9' as u32
}

/// The integer that a text reads as: decimal digits after an optional
/// sign, as far as the number fits.
pub open spec fn integer_of(text: Seq<char>) -> Option<i64> {
    let signed = text.len() > 0 && (text[0] == '-' || text[0] == '+');
    let negative = text.len() > 0 && text[0] == '-';
    let digits = if signed {
        text.skip(1)
    } else {
        text
    };
    if digits.len() == 0 || !all_digits(digits) {
        None
    } else if negative {
        if decimal(digits) <= 0x8000_0000_0000_0000 {
            Some((-(decimal(digits) as int)) as i64)
        } else {
            None
        }
    } else {
        if decimal(digits) <= 0x7fff_ffff_ffff_ffff {
            Some(decimal(digits) as i64)
        } else {
            None
        }
    }
}

/// The byte that a text reads as: decimal digits after an optional plus
/// sign, as far as the number fits.
pub open spec fn byte_of(text: Seq<char>) -> Option<u8> {
    let digits = if text.len() > 0 && text[0] == '+' {
        text.skip(1)
    } else {
        text
    };
    if digits.len() == 0 || !all_digits(digits) || decimal(digits) > 255 {
        None
    } else {
        Some(decimal(digits) as u8)
    }
}

/// The truth value that a text reads as.
pub open spec fn bool_of(text: Seq<char>) -> Option<bool> {
    if text == "true"@ {
        Some(true)
    } else if text == "false"@ {
        Some(false)
    } else {
        None
    }
}

/// `str::parse` to `i64`: the text is an optional `+` or `-` and then at
/// least one decimal digit, nothing else; a number that does not fit in an
/// `i64` is refused.
#[verifier::external_body]
fn parse_integer(text: &str) -> (r: Option<i64>)
    ensures
        r == integer_of(text@),
{
    text.parse::<i64>().ok()
}

/// `str::parse` to `u8`: the text is an optional `+` and then at least one
/// decimal digit, nothing else; a number above 255 is refused.
#[verifier::external_body]
fn parse_byte(text: &str) -> (r: Option<u8>)
    ensures
        r == byte_of(text@),
{
    text.parse::<u8>().ok()
}

/// The truth value that a text reads as: `true` or `false`, nothing else.
pub fn parse_bool(text: &str) -> (r: Option<bool>)
    ensures
        r == bool_of(text@),
{
    if text_is(text, "true") {
        Some(true)
    } else if text_is(text, "false") {
        Some(false)
    } else {
        None
    }
}

/// Whether a cell reads as an element of the type.
pub open spec fn readable(cell: Cell, datatype: ElementType) -> bool {
    match datatype {
        ElementType::F64 => cell.number is Some,
        ElementType::I64 => integer_of(cell.text@) is Some,
        ElementType::Bool => bool_of(cell.text@) is Some,
        ElementType::Bytes => byte_of(cell.text@) is Some,
        ElementType::Str => true,
    }
}

/// Whether a payload holds the cells, each read as an element of the type.
pub open spec fn holds_cells(data: Payload, cells: Seq<Cell>, datatype: ElementType) -> bool {
    match (data, datatype) {
        (Payload::F64(v), ElementType::F64) => v.len() == cells.len() && forall|k: int|
            0 <= k < cells.len() ==> Some(#[trigger] v[k]) == cells[k].number,
        (Payload::I64(v), ElementType::I64) => v.len() == cells.len() && forall|k: int|
            0 <= k < cells.len() ==> Some(#[trigger] v[k]) == integer_of(cells[k].text@),
        (Payload::Bool(v), ElementType::Bool) => v.len() == cells.len() && forall|k: int|
            0 <= k < cells.len() ==> Some(#[trigger] v[k]) == bool_of(cells[k].text@),
        (Payload::Bytes(v), ElementType::Bytes) => v.len() == cells.len() && forall|k: int|
            0 <= k < cells.len() ==> Some(#[trigger] v[k]) == byte_of(cells[k].text@),
        (Payload::Str(v), ElementType::Str) => v.len() == cells.len() && forall|k: int|
            0 <= k < cells.len() ==> (#[trigger] v[k])@ == cells[k].text@,
        _ => false,
    }
}

/// Reads the cells of a column as elements of the declared type. The result
/// is a list as long as the column, or the first row whose cell does not
/// read as an element of that type.
pub fn ingest_column(cells: &Vec<Cell>, datatype: ElementType) -> (r: Result<Value, IngestionError>)
    ensures
        match r {
            Ok(value) => {
                &&& forall|k: int| 0 <= k < cells.len() ==> readable(#[trigger] cells[k], datatype)
                &&& value.shape@ == seq![cells.len()]
                &&& holds_cells(value.data, cells@, datatype)
                &&& value.wf()
            },
            Err(e) => exists|row: int|
                #![trigger cells[row]]
                0 <= row < cells.len() && e == (IngestionError::Malformed { row: row as usize })
                    && !readable(cells[row], datatype) && forall|k: int|
                    0 <= k < row ==> readable(#[trigger] cells[k], datatype),
        },
{
    let n: usize = cells.len();
    let mut shape: Vec<usize> = Vec::new();
    shape.push(n);
    assert(shape@ =~= seq![n]);
    proof {
        reveal_with_fuel(crate::value::volume, 2);
        assert(shape@.drop_last() =~= Seq::<usize>::empty());
        assert(crate::value::volume(shape@) == n) by {
            assert(crate::value::volume(shape@) == crate::value::volume(shape@.drop_last()) * (
            shape@.last() as nat));
            assert(1 * (n as nat) == n) by (nonlinear_arith);
        }
    }
    let mut k: usize = 0;
    match datatype {
        ElementType::F64 => {
            let mut out: Vec<Binary64> = Vec::new();
            while k < n
                invariant
                    k <= n,
                    n == cells.len(),
                    out.len() == k,
                    datatype == ElementType::F64,
                    forall|l: int| 0 <= l < k ==> readable(#[trigger] cells[l], ElementType::F64),
                    forall|l: int| 0 <= l < k ==> Some(#[trigger] out[l]) == cells[l].number,
                decreases n - k,
            {
                match cells[k].number {
                    Some(x) => out.push(x),
                    None => {
                        assert(!readable(cells[k as int], datatype));
                        return Err(IngestionError::Malformed { row: k });
                    },
                }
                k += 1;
            }
            Ok(Value { shape, data: Payload::F64(out) })
        },
        ElementType::I64 => {
            let mut out: Vec<i64> = Vec::new();
            while k < n
                invariant
                    k <= n,
                    n == cells.len(),
                    out.len() == k,
                    datatype == ElementType::I64,
                    forall|l: int| 0 <= l < k ==> readable(#[trigger] cells[l], ElementType::I64),
                    forall|l: int| 0 <= l < k ==> Some(#[trigger] out[l]) == integer_of(cells[l].text@),
                decreases n - k,
            {
                match parse_integer(cells[k].text.as_str()) {
                    Some(x) => out.push(x),
                    None => {
                        assert(!readable(cells[k as int], datatype));
                        return Err(IngestionError::Malformed { row: k });
                    },
                }
                k += 1;
            }
            Ok(Value { shape, data: Payload::I64(out) })
        },
        ElementType::Bool => {
            let mut out: Vec<bool> = Vec::new();
            while k < n
                invariant
                    k <= n,
                    n == cells.len(),
                    out.len() == k,
                    datatype == ElementType::Bool,
                    forall|l: int| 0 <= l < k ==> readable(#[trigger] cells[l], ElementType::Bool),
                    forall|l: int| 0 <= l < k ==> Some(#[trigger] out[l]) == bool_of(cells[l].text@),
                decreases n - k,
            {
                match parse_bool(cells[k].text.as_str()) {
                    Some(x) => out.push(x),
                    None => {
                        assert(!readable(cells[k as int], datatype));
                        return Err(IngestionError::Malformed { row: k });
                    },
                }
                k += 1;
            }
            Ok(Value { shape, data: Payload::Bool(out) })
        },
        ElementType::Bytes => {
            let mut out: Vec<u8> = Vec::new();
            while k < n
                invariant
                    k <= n,
                    n == cells.len(),
                    out.len() == k,
                    datatype == ElementType::Bytes,
                    forall|l: int| 0 <= l < k ==> readable(#[trigger] cells[l], ElementType::Bytes),
                    forall|l: int| 0 <= l < k ==> Some(#[trigger] out[l]) == byte_of(cells[l].text@),
                decreases n - k,
            {
                match parse_byte(cells[k].text.as_str()) {
                    Some(x) => out.push(x),
                    None => {
                        assert(!readable(cells[k as int], datatype));
                        return Err(IngestionError::Malformed { row: k });
                    },
                }
                k += 1;
            }
            Ok(Value { shape, data: Payload::Bytes(out) })
        },
        ElementType::Str => {
            let mut out: Vec<String> = Vec::new();
            while k < n
                invariant
                    k <= n,
                    n == cells.len(),
                    out.len() == k,
                    forall|l: int| 0 <= l < k ==> (#[trigger] out[l])@ == cells[l].text@,
                decreases n - k,
            {
                out.push(cells[k].text.clone());
                k += 1;
            }
            Ok(Value { shape, data: Payload::Str(out) })
        },
    }
}

} // verus!
