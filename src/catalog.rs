use vstd::prelude::*;
use crate::text::{
    as_int_opt, digits_value, is_decimal, is_decimal_text, is_number_upto, parse_digits,
    parse_hundredths, spec_hundredths, split_spec, split_text, views,
};

verus! {

/// Number of elements in the catalog.
pub const CATALOG_SIZE: usize = 118;

/// One row of the catalog of elements.
#[derive(Debug)]
pub struct Element {
    /// Atomic number, from 1 up.
    pub number: u8,
    pub symbol: String,
    pub name: String,
    /// Atomic mass, as the catalog writes it.
    pub mass: String,
    /// Pauling electronegativity in hundredths, where the catalog gives one.
    pub electronegativity: Option<u32>,
    pub metal: bool,
    /// The category tag, such as `Noble Gas`.
    pub category: String,
    /// Grid row; the two detached blocks sit in rows 8 and 9.
    pub period: u16,
    /// Grid column.
    pub group: u16,
}

/// Why a catalog was refused.
#[derive(Clone, Copy, Debug, PartialEq, Eq, Structural)]
pub enum CatalogError {
    /// The catalog does not hold exactly one row per element.
    WrongLength,
    /// The row at this index does not hold the element whose atomic number
    /// is one more than the index.
    OutOfOrder { index: usize },
    /// The catalog text has fewer lines than there are elements.
    MissingRows,
    /// The line at this index is not a well-formed row.
    BadRow { index: usize },
}

/// Columns of a catalog row.
pub const NUMBER_COLUMN: usize = 0;
pub const NAME_COLUMN: usize = 1;
pub const SYMBOL_COLUMN: usize = 2;
pub const MASS_COLUMN: usize = 3;
pub const PERIOD_COLUMN: usize = 7;
pub const GROUP_COLUMN: usize = 8;
pub const METAL_COLUMN: usize = 12;
pub const CATEGORY_COLUMN: usize = 15;
pub const ELECTRONEGATIVITY_COLUMN: usize = 17;

/// The lanthanides and actinides, drawn in two rows of their own.
pub open spec fn detached(number: int) -> bool {
    (57 <= number <= 71) || (89 <= number <= 103)
}

/// `(group, period)` of a lanthanide or actinide: rows 8 and 9, from
/// group 4 on.
pub open spec fn spec_detached_cell(number: int) -> (int, int) {
    if number <= 71 {
        (number - 57 + 4, 8)
    } else {
        (number - 89 + 4, 9)
    }
}

/// The grid cell of a lanthanide or actinide, `None` for other elements.
pub fn detached_cell(number: u8) -> (r: Option<(u16, u16)>)
    ensures
        r is Some <==> detached(number as int),
        r matches Some(c) ==> (c.0 as int, c.1 as int) == spec_detached_cell(number as int),
{
    if 57 <= number && number <= 71 {
        Some((number as u16 - 57 + 4, 8))
    } else if 89 <= number && number <= 103 {
        Some((number as u16 - 89 + 4, 9))
    } else {
        None
    }
}

/// The fields of a row can be read.
pub open spec fn record_ok(fs: Seq<Seq<char>>) -> bool {
    &&& fs.len() > ELECTRONEGATIVITY_COLUMN
    &&& is_number_upto(fs[NUMBER_COLUMN as int], 255)
    &&& is_decimal(fs[MASS_COLUMN as int])
    &&& detached(digits_value(fs[NUMBER_COLUMN as int])) || (is_number_upto(
        fs[PERIOD_COLUMN as int],
        65535,
    ) && is_number_upto(fs[GROUP_COLUMN as int], 65535))
}

/// `e` is what the fields of a row describe.
pub open spec fn record_matches(fs: Seq<Seq<char>>, e: Element) -> bool {
    let number = digits_value(fs[NUMBER_COLUMN as int]);
    &&& e.number == number
    &&& e.name@ == fs[NAME_COLUMN as int]
    &&& e.symbol@ == fs[SYMBOL_COLUMN as int]
    &&& e.mass@ == fs[MASS_COLUMN as int]
    &&& e.metal == (fs[METAL_COLUMN as int] == "yes"@)
    &&& e.category@ == fs[CATEGORY_COLUMN as int]
    &&& as_int_opt(e.electronegativity) == spec_hundredths(fs[ELECTRONEGATIVITY_COLUMN as int])
    &&& (e.group as int, e.period as int) == if detached(number) {
        spec_detached_cell(number)
    } else {
        (digits_value(fs[GROUP_COLUMN as int]), digits_value(fs[PERIOD_COLUMN as int]))
    }
}

/// The element that one comma-separated catalog row describes.
pub fn parse_record(line: &str) -> (r: Option<Element>)
    ensures
        r is Some <==> record_ok(split_spec(line@, ',')),
        r matches Some(e) ==> record_matches(split_spec(line@, ','), e),
{
    let fields = split_text(line, ',');
    let ghost fs = split_spec(line@, ',');
    assert(views(fields@) == fs);
    if fields.len() <= ELECTRONEGATIVITY_COLUMN {
        return None;
    }
    assert(fields@[NUMBER_COLUMN as int]@ == fs[NUMBER_COLUMN as int]);
    let number = match parse_digits(fields[NUMBER_COLUMN].as_str(), 255) {
        Some(n) => n as u8,
        None => return None,
    };
    assert(fields@[MASS_COLUMN as int]@ == fs[MASS_COLUMN as int]);
    if !is_decimal_text(fields[MASS_COLUMN].as_str()) {
        return None;
    }
    let (group, period) = match detached_cell(number) {
        Some(cell) => cell,
        None => {
            assert(fields@[PERIOD_COLUMN as int]@ == fs[PERIOD_COLUMN as int]);
            assert(fields@[GROUP_COLUMN as int]@ == fs[GROUP_COLUMN as int]);
            let period = match parse_digits(fields[PERIOD_COLUMN].as_str(), 65535) {
                Some(v) => v as u16,
                None => return None,
            };
            let group = match parse_digits(fields[GROUP_COLUMN].as_str(), 65535) {
                Some(v) => v as u16,
                None => return None,
            };
            (group, period)
        },
    };
    assert(fields@[METAL_COLUMN as int]@ == fs[METAL_COLUMN as int]);
    assert(fields@[ELECTRONEGATIVITY_COLUMN as int]@ == fs[ELECTRONEGATIVITY_COLUMN as int]);
    assert(fields@[NAME_COLUMN as int]@ == fs[NAME_COLUMN as int]);
    assert(fields@[SYMBOL_COLUMN as int]@ == fs[SYMBOL_COLUMN as int]);
    assert(fields@[MASS_COLUMN as int]@ == fs[MASS_COLUMN as int]);
    assert(fields@[CATEGORY_COLUMN as int]@ == fs[CATEGORY_COLUMN as int]);
    let yes = String::from_str("yes");
    Some(Element {
        number,
        name: fields[NAME_COLUMN].clone(),
        symbol: fields[SYMBOL_COLUMN].clone(),
        mass: fields[MASS_COLUMN].clone(),
        electronegativity: parse_hundredths(fields[ELECTRONEGATIVITY_COLUMN].as_str()),
        metal: fields[METAL_COLUMN] == yes,
        category: fields[CATEGORY_COLUMN].clone(),
        period,
        group,
    })
}

/// The fields of catalog line `i`.
pub open spec fn row_fields(text: Seq<char>, i: int) -> Seq<Seq<char>> {
    split_spec(split_spec(text, '\n')[i], ',')
}

/// The catalog from its text: one row per line, one line per element in
/// order of atomic number; lines after the last element are not read.
pub fn parse_elements(text: &str) -> (r: Result<Vec<Element>, CatalogError>)
    ensures
        (r == Err::<Vec<Element>, CatalogError>(CatalogError::MissingRows)) <==> split_spec(
            text@,
            '\n',
        ).len() < CATALOG_SIZE,
        r matches Err(CatalogError::BadRow { index }) ==> {
            &&& index < CATALOG_SIZE
            &&& !record_ok(row_fields(text@, index as int))
            &&& forall|j: int| 0 <= j < index ==> record_ok(#[trigger] row_fields(text@, j))
        },
        r is Ok <==> {
            &&& split_spec(text@, '\n').len() >= CATALOG_SIZE
            &&& forall|j: int| 0 <= j < CATALOG_SIZE ==> record_ok(#[trigger] row_fields(text@, j))
        },
        r matches Ok(v) ==> v@.len() == CATALOG_SIZE && forall|j: int|
            0 <= j < CATALOG_SIZE ==> record_matches(#[trigger] row_fields(text@, j), v@[j]),
        !(r matches Err(CatalogError::WrongLength)) && !(r matches Err(CatalogError::OutOfOrder { .. })),
{
    let lines = split_text(text, '\n');
    let ghost ls = split_spec(text@, '\n');
    assert(views(lines@) == ls);
    if lines.len() < CATALOG_SIZE {
        return Err(CatalogError::MissingRows);
    }
    let mut elements: Vec<Element> = Vec::new();
    let mut i: usize = 0;
    while i < CATALOG_SIZE
        invariant
            views(lines@) == ls,
            ls == split_spec(text@, '\n'),
            lines@.len() >= CATALOG_SIZE,
            i <= CATALOG_SIZE,
            elements@.len() == i,
            forall|j: int| 0 <= j < i ==> record_ok(#[trigger] row_fields(text@, j)),
            forall|j: int| 0 <= j < i ==> record_matches(#[trigger] row_fields(text@, j), elements@[j]),
        decreases CATALOG_SIZE - i,
    {
        assert(lines@[i as int]@ == ls[i as int]);
        match parse_record(lines[i].as_str()) {
            Some(e) => {
                elements.push(e);
            },
            None => {
                assert(!record_ok(row_fields(text@, i as int)));
                return Err(CatalogError::BadRow { index: i });
            },
        }
        i += 1;
    }
    Ok(elements)
}

} // verus!
