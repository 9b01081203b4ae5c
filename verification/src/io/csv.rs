use vstd::prelude::*;

verus! {

use crate::data::point::{PointCollection, PointConstructionError, Points};
use crate::text::{logical_rows, seq_views, spec_split, split_fields, split_rows, str_eq,
    two_num_message, spec_decimal};
use vstd::arithmetic::div_mod::{
    lemma_fundamental_div_mod_converse,
    lemma_mod_multiples_basic,
};
use vstd::string::StringExecFns;

/// Csv file options: the field delimiter and the literal token that
/// denotes a missing value.
#[derive(Clone, Debug)]
pub struct CsvOptions {
    delimiter: u8,
    no_data: String,
}

impl CsvOptions {
    /// The field delimiter, as the character it stands for.
    pub closed spec fn spec_delimiter(&self) -> char {
        self.delimiter as char
    }

    /// The missing-value token.
    pub closed spec fn spec_no_data(&self) -> Seq<char> {
        self.no_data@
    }

    pub fn new(delimiter: u8, no_data: String) -> (r: Self)
        ensures
            r.spec_delimiter() == delimiter as char,
            r.spec_no_data() == no_data@,
    {
        CsvOptions { delimiter, no_data }
    }
}

impl Default for CsvOptions {
    /// Semicolon-delimited fields, `NA` for a missing value.
    fn default() -> (r: Self)
        ensures
            r.spec_delimiter() == ';',
            r.spec_no_data() == "NA"@,
    {
        CsvOptions { delimiter: 59, no_data: "NA".to_owned() }
    }
}

/// Error type for missing columns.
#[derive(Debug, Clone, PartialEq, Eq)]
pub struct ColumnIndexError(pub String);

/// Error type for the different possible failures of CSV to
/// point-collection reading.
#[derive(Debug)]
pub enum CsvError {
    ColumnError(ColumnIndexError),
    IoError(String),
    CsvError(String),
    ParseError(String),
    PointError(PointConstructionError),
}

/// `i` is the position of the first header field equal to `name`.
pub open spec fn is_first_match(header: Seq<Seq<char>>, name: Seq<char>, i: int) -> bool {
    &&& 0 <= i < header.len()
    &&& header[i] == name
    &&& forall|j: int| 0 <= j < i ==> header[j] != name
}

/// No header field equals `name`.
pub open spec fn absent(header: Seq<Seq<char>>, name: Seq<char>) -> bool {
    forall|j: int| 0 <= j < header.len() ==> header[j] != name
}

/// The position of the first header field equal to `name`.
pub open spec fn col_at(header: Seq<Seq<char>>, name: Seq<char>) -> int {
    choose|i: int| is_first_match(header, name, i)
}

pub proof fn lemma_col_at(header: Seq<Seq<char>>, name: Seq<char>, i: int)
    requires
        is_first_match(header, name, i),
    ensures
        col_at(header, name) == i,
        !absent(header, name),
{
    assert(exists|x: int| is_first_match(header, name, x));
    let c = col_at(header, name);
    assert(is_first_match(header, name, c));
    if c < i {
        assert(header[c] != name);
    } else if i < c {
        assert(header[i] != name);
    }
}

/// The value a cell stands for, given the outcome `p` of parsing its text:
/// the missing-value token stands for `missing`, any other cell for what
/// it parsed to.
pub open spec fn cell_value<T>(cell: Seq<char>, p: Option<T>, no_data: Seq<char>, missing: T) -> T {
    if cell == no_data {
        missing
    } else {
        match p {
            Some(v) => v,
            None => missing,
        }
    }
}

/// A cell is accepted when it is the missing-value token or its text parsed.
pub open spec fn cell_accepted<T>(cell: Seq<char>, p: Option<T>, no_data: Seq<char>) -> bool {
    cell == no_data || p is Some
}

/// The raw outcome of reading a delimited text: per data row the selected
/// coordinate cells, verbatim and in configured column order, and the
/// identifier cells where an identifier column is configured.
#[derive(Debug)]
pub struct CellTable {
    pub cells: Vec<Vec<String>>,
    pub ids: Option<Vec<String>>,
}

/// Reader for CSV point collection files.
pub struct CsvPointReader {
    columns: Vec<String>,
    id_column: Option<String>,
    options: CsvOptions,
}

impl CsvPointReader {
    /// The requested coordinate column names, in output order.
    pub closed spec fn spec_columns(&self) -> Seq<Seq<char>> {
        seq_views(self.columns@)
    }

    /// The optional identifier column name.
    pub closed spec fn spec_id_column(&self) -> Option<Seq<char>> {
        match self.id_column {
            Some(c) => Some(c@),
            None => None,
        }
    }

    /// The configured field delimiter.
    pub closed spec fn spec_sep(&self) -> char {
        self.options.spec_delimiter()
    }

    /// The configured missing-value token.
    pub closed spec fn spec_no_data(&self) -> Seq<char> {
        self.options.spec_no_data()
    }

    pub fn new(columns: &Vec<String>, id_column: Option<String>, options: CsvOptions) -> (r: Self)
        ensures
            r.spec_columns() == seq_views(columns@),
            r.spec_id_column() == (match id_column {
                Some(c) => Some(c@),
                None => None::<Seq<char>>,
            }),
            r.spec_sep() == options.spec_delimiter(),
            r.spec_no_data() == options.spec_no_data(),
    {
        let mut cs: Vec<String> = Vec::new();
        let mut i: usize = 0;
        while i < columns.len()
            invariant
                i <= columns@.len(),
                cs@.len() == i,
                forall|j: int| 0 <= j < i ==> #[trigger] cs@[j]@ == columns@[j]@,
            decreases columns@.len() - i,
        {
            cs.push(columns[i].clone());
            i += 1;
        }
        proof {
            assert(seq_views(cs@) =~~= seq_views(columns@));
        }
        CsvPointReader { columns: cs, id_column, options }
    }

    /// The zero-based position of `column` within `header`, by exact
    /// string match; the first occurrence wins.
    pub fn column_index(&self, header: &Vec<String>, column: &str) -> (r: Result<
        usize,
        ColumnIndexError,
    >)
        ensures
            match r {
                Ok(i) => is_first_match(seq_views(header@), column@, i as int),
                Err(e) => {
                    &&& absent(seq_views(header@), column@)
                    &&& e.0@ == "Column "@ + column@ + " not found."@
                },
            },
    {
        let mut i: usize = 0;
        while i < header.len()
            invariant
                i <= header@.len(),
                forall|j: int| 0 <= j < i ==> #[trigger] header@[j]@ != column@,
            decreases header@.len() - i,
        {
            if str_eq(header[i].as_str(), column) {
                return Ok(i);
            }
            i += 1;
        }
        let mut m = "Column ".to_owned();
        m.append(column);
        m.append(" not found.");
        Err(ColumnIndexError(m))
    }

    /// The header fields of a text, under this reader's delimiter; an
    /// empty text has no header fields.
    pub open spec fn spec_header(&self, content: Seq<char>) -> Seq<Seq<char>> {
        if logical_rows(content).len() == 0 {
            Seq::empty()
        } else {
            spec_split(logical_rows(content)[0], self.spec_sep())
        }
    }

    /// The number of data rows of a text.
    pub open spec fn spec_row_count(&self, content: Seq<char>) -> int {
        if logical_rows(content).len() == 0 {
            0
        } else {
            logical_rows(content).len() - 1
        }
    }

    /// The fields of data row `i` of a text.
    pub open spec fn spec_row(&self, content: Seq<char>, i: int) -> Seq<Seq<char>> {
        spec_split(logical_rows(content)[i + 1], self.spec_sep())
    }

    /// The configured identifier and coordinate columns all resolve
    /// against the header.
    pub open spec fn columns_resolve(&self, content: Seq<char>) -> bool {
        &&& (match self.spec_id_column() {
            Some(c) => !absent(self.spec_header(content), c),
            None => true,
        })
        &&& forall|k: int|
            0 <= k < self.spec_columns().len() ==> !absent(
                self.spec_header(content),
                #[trigger] self.spec_columns()[k],
            )
    }

    /// Every data row has exactly as many fields as the header.
    pub open spec fn rows_regular(&self, content: Seq<char>) -> bool {
        forall|i: int|
            0 <= i < self.spec_row_count(content) ==> (#[trigger] self.spec_row(content, i)).len()
                == self.spec_header(content).len()
    }

    /// Reads a delimited text into its verbatim identifier and coordinate
    /// cells: the first logical row is the header, the configured columns
    /// are resolved against it by exact match (fail-fast, identifier
    /// first), and each further row contributes its cells at the resolved
    /// positions, in configured column order.
    pub fn parse_table(&self, content: &str) -> (r: Result<CellTable, CsvError>)
        ensures
            match r {
                Ok(t) => {
                    &&& self.columns_resolve(content@)
                    &&& self.rows_regular(content@)
                    &&& (match (self.spec_id_column(), t.ids) {
                        (Some(c), Some(ids)) => {
                            &&& ids@.len() == self.spec_row_count(content@)
                            &&& forall|i: int|
                                0 <= i < ids@.len() ==> #[trigger] ids@[i]@ == self.spec_row(
                                    content@,
                                    i,
                                )[col_at(self.spec_header(content@), c)]
                        },
                        (None, None) => true,
                        _ => false,
                    })
                    &&& t.cells@.len() == self.spec_row_count(content@)
                    &&& forall|i: int|
                        0 <= i < t.cells@.len() ==> (#[trigger] t.cells@[i]@).len()
                            == self.spec_columns().len()
                    &&& forall|i: int, k: int|
                        0 <= i < t.cells@.len() && 0 <= k < self.spec_columns().len()
                            ==> #[trigger] t.cells@[i]@[k]@ == self.spec_row(content@, i)[col_at(
                            self.spec_header(content@),
                            self.spec_columns()[k],
                        )]
                },
                Err(CsvError::ColumnError(e)) => {
                    ||| (match self.spec_id_column() {
                        Some(c) => absent(self.spec_header(content@), c) && e.0@ == "Column "@ + c
                            + " not found."@,
                        None => false,
                    })
                    ||| ((match self.spec_id_column() {
                        Some(c) => !absent(self.spec_header(content@), c),
                        None => true,
                    }) && exists|k: int|
                        {
                            &&& 0 <= k < self.spec_columns().len()
                            &&& absent(self.spec_header(content@), #[trigger] self.spec_columns()[k])
                            &&& forall|q: int|
                                0 <= q < k ==> !absent(
                                    self.spec_header(content@),
                                    #[trigger] self.spec_columns()[q],
                                )
                            &&& e.0@ == "Column "@ + self.spec_columns()[k] + " not found."@
                        })
                },
                Err(CsvError::CsvError(m)) => {
                    &&& self.columns_resolve(content@)
                    &&& exists|i: int|
                        {
                            &&& 0 <= i < self.spec_row_count(content@)
                            &&& (#[trigger] self.spec_row(content@, i)).len() != self.spec_header(
                                content@,
                            ).len()
                            &&& forall|q: int|
                                0 <= q < i ==> (#[trigger] self.spec_row(content@, q)).len()
                                    == self.spec_header(content@).len()
                            &&& m@ == "Record field count ("@ + spec_decimal(
                                self.spec_row(content@, i).len(),
                            ) + ") does not match header field count ("@ + spec_decimal(
                                self.spec_header(content@).len(),
                            ) + ")"@
                        }
                },
                Err(_) => false,
            },
    {
        let sep: char = self.options.delimiter as char;
        let rows = split_rows(content);
        let header: Vec<String> = if rows.len() == 0 {
            Vec::new()
        } else {
            split_fields(rows[0].as_str(), sep)
        };
        proof {
            assert(seq_views(Seq::<String>::empty()) =~~= Seq::<Seq<char>>::empty());
            assert(seq_views(header@) =~~= self.spec_header(content@));
        }
        let id_index: Option<usize> = match &self.id_column {
            Some(c) => match self.column_index(&header, c.as_str()) {
                Ok(ix) => {
                    proof {
                        lemma_col_at(self.spec_header(content@), c@, ix as int);
                    }
                    Some(ix)
                },
                Err(e) => {
                    return Err(CsvError::ColumnError(e));
                },
            },
            None => None,
        };
        let mut col_indices: Vec<usize> = Vec::new();
        let mut k: usize = 0;
        while k < self.columns.len()
            invariant
                k <= self.spec_columns().len(),
                seq_views(header@) == self.spec_header(content@),
                (match self.spec_id_column() {
                    Some(c) => id_index is Some && !absent(self.spec_header(content@), c)
                        && id_index->0 as int == col_at(self.spec_header(content@), c)
                        && id_index->0 < header@.len(),
                    None => id_index is None,
                }),
                col_indices@.len() == k,
                forall|q: int|
                    0 <= q < k ==> !absent(
                        self.spec_header(content@),
                        #[trigger] self.spec_columns()[q],
                    ),
                forall|q: int|
                    0 <= q < k ==> #[trigger] col_indices@[q] < header@.len()
                        && col_indices@[q] as int == col_at(
                        self.spec_header(content@),
                        self.spec_columns()[q],
                    ),
            decreases self.spec_columns().len() - k,
        {
            match self.column_index(&header, self.columns[k].as_str()) {
                Ok(ix) => {
                    proof {
                        assert(self.spec_columns()[k as int] == self.columns@[k as int]@);
                        lemma_col_at(self.spec_header(content@), self.spec_columns()[k as int], ix as int);
                    }
                    col_indices.push(ix);
                },
                Err(e) => {
                    proof {
                        assert(self.spec_columns()[k as int] == self.columns@[k as int]@);
                        assert(absent(self.spec_header(content@), self.spec_columns()[k as int]));
                        assert(e.0@ == "Column "@ + self.spec_columns()[k as int] + " not found."@);
                    }
                    return Err(CsvError::ColumnError(e));
                },
            }
            k += 1;
        }
        let ndata: usize = if rows.len() == 0 {
            0
        } else {
            rows.len() - 1
        };
        let mut ids: Vec<String> = Vec::new();
        let mut cells: Vec<Vec<String>> = Vec::new();
        let mut i: usize = 0;
        while i < ndata
            invariant
                i <= ndata,
                ndata as int == self.spec_row_count(content@),
                ndata < rows@.len() || ndata == 0,
                sep == self.spec_sep(),
                seq_views(rows@) == logical_rows(content@),
                seq_views(header@) == self.spec_header(content@),
                self.columns_resolve(content@),
                (match self.spec_id_column() {
                    Some(c) => id_index is Some && id_index->0 as int == col_at(
                        self.spec_header(content@),
                        c,
                    ) && id_index->0 < header@.len(),
                    None => id_index is None,
                }),
                col_indices@.len() == self.spec_columns().len(),
                forall|q: int|
                    0 <= q < col_indices@.len() ==> #[trigger] col_indices@[q] < header@.len()
                        && col_indices@[q] as int == col_at(
                        self.spec_header(content@),
                        self.spec_columns()[q],
                    ),
                forall|q: int|
                    0 <= q < i ==> (#[trigger] self.spec_row(content@, q)).len()
                        == self.spec_header(content@).len(),
                cells@.len() == i,
                forall|q: int|
                    0 <= q < i ==> (#[trigger] cells@[q]@).len() == self.spec_columns().len(),
                forall|q: int, l: int|
                    0 <= q < i && 0 <= l < self.spec_columns().len()
                        ==> #[trigger] cells@[q]@[l]@ == self.spec_row(content@, q)[col_at(
                        self.spec_header(content@),
                        self.spec_columns()[l],
                    )],
                (match self.spec_id_column() {
                    Some(c) => ids@.len() == i && forall|q: int|
                        0 <= q < i ==> #[trigger] ids@[q]@ == self.spec_row(content@, q)[col_at(
                            self.spec_header(content@),
                            c,
                        )],
                    None => ids@.len() == 0,
                }),
            decreases ndata - i,
        {
            let fields = split_fields(rows[i + 1].as_str(), sep);
            proof {
                assert(seq_views(rows@)[i + 1] == rows@[i + 1]@);
                assert(rows@[i + 1]@ == logical_rows(content@)[i + 1]);
                assert(seq_views(fields@) == self.spec_row(content@, i as int));
            }
            if fields.len() != header.len() {
                return Err(CsvError::CsvError(two_num_message(
                    "Record field count (",
                    fields.len(),
                    ") does not match header field count (",
                    header.len(),
                    ")",
                )));
            }
            if let Some(ix) = id_index {
                ids.push(fields[ix].clone());
            }
            let mut rowcells: Vec<String> = Vec::new();
            let mut l: usize = 0;
            while l < col_indices.len()
                invariant
                    l <= col_indices@.len(),
                    seq_views(fields@) == self.spec_row(content@, i as int),
                    fields@.len() == header@.len(),
                    forall|q: int|
                        0 <= q < col_indices@.len() ==> #[trigger] col_indices@[q] < header@.len(),
                    rowcells@.len() == l,
                    forall|q: int|
                        0 <= q < l ==> #[trigger] rowcells@[q]@ == self.spec_row(
                            content@,
                            i as int,
                        )[col_indices@[q] as int],
                decreases col_indices@.len() - l,
            {
                rowcells.push(fields[col_indices[l]].clone());
                l += 1;
            }
            cells.push(rowcells);
            i += 1;
        }
        let t = CellTable {
            cells,
            ids: if id_index.is_some() {
                Some(ids)
            } else {
                None
            },
        };
        Ok(t)
    }

    /// Turns the verbatim cells of a read into a point collection, given
    /// for every cell the outcome the caller's value parser produced for
    /// its text, and the value that stands for a missing measurement. A
    /// cell whose text is exactly the missing-value token becomes
    /// `missing_value` (its parse outcome is never consulted); any other
    /// cell must have parsed, else the whole read fails with the first
    /// offending cell's text and nothing is built.
    pub fn assemble<T: Copy>(
        &self,
        table: &CellTable,
        parsed: &Vec<Vec<Option<T>>>,
        missing_value: T,
    ) -> (r: Result<PointCollection<T>, CsvError>)
        requires
            self.spec_columns().len() >= 1,
            parsed@.len() == table.cells@.len(),
            forall|i: int|
                0 <= i < parsed@.len() ==> (#[trigger] parsed@[i]@).len() == self.spec_columns().len(),
            forall|i: int|
                0 <= i < table.cells@.len() ==> (#[trigger] table.cells@[i]@).len()
                    == self.spec_columns().len(),
            match table.ids {
                Some(v) => v@.len() == table.cells@.len(),
                None => true,
            },
        ensures
            match r {
                Ok(pc) => {
                    &&& pc.well_formed()
                    &&& pc.spec_points().spec_dim() == self.spec_columns().len()
                    &&& pc.spec_points().spec_len() == table.cells@.len()
                    &&& forall|i: int, k: int|
                        0 <= i < table.cells@.len() && 0 <= k < self.spec_columns().len() ==> {
                            &&& cell_accepted(
                                (#[trigger] table.cells@[i]@[k])@,
                                parsed@[i]@[k],
                                self.spec_no_data(),
                            )
                            &&& pc.spec_points().spec_data()[i * self.spec_columns().len() + k]
                                == cell_value(
                                table.cells@[i]@[k]@,
                                parsed@[i]@[k],
                                self.spec_no_data(),
                                missing_value,
                            )
                        }
                    &&& (match (table.ids, pc.spec_ids()) {
                        (Some(v), Some(s)) => s == seq_views(v@),
                        (None, None) => true,
                        _ => false,
                    })
                },
                Err(CsvError::ParseError(m)) => exists|i: int, k: int|
                    {
                        &&& 0 <= i < table.cells@.len()
                        &&& 0 <= k < self.spec_columns().len()
                        &&& !cell_accepted(
                            (#[trigger] table.cells@[i]@[k])@,
                            parsed@[i]@[k],
                            self.spec_no_data(),
                        )
                        &&& forall|q: int, l: int|
                            0 <= q < table.cells@.len() && 0 <= l < self.spec_columns().len() && q
                                * self.spec_columns().len() + l < i * self.spec_columns().len() + k
                                ==> cell_accepted(
                                (#[trigger] table.cells@[q]@[l])@,
                                parsed@[q]@[l],
                                self.spec_no_data(),
                            )
                        &&& m@ == "Unable to parse value '"@ + table.cells@[i]@[k]@
                            + "' to float."@
                    },
                Err(_) => false,
            },
    {
        let dim = self.columns.len();
        let n = table.cells.len();
        let ghost nd = self.spec_no_data();
        let mut data: Vec<T> = Vec::new();
        let mut i: usize = 0;
        while i < n
            invariant
                i <= n,
                n == table.cells@.len(),
                dim as int == self.spec_columns().len(),
                dim >= 1,
                nd == self.spec_no_data(),
                parsed@.len() == table.cells@.len(),
                forall|q: int|
                    0 <= q < parsed@.len() ==> (#[trigger] parsed@[q]@).len() == dim as int,
                forall|q: int|
                    0 <= q < table.cells@.len() ==> (#[trigger] table.cells@[q]@).len()
                        == dim as int,
                data@.len() == i * dim,
                forall|f: int|
                    0 <= f < data@.len() ==> #[trigger] data@[f] == cell_value(
                        table.cells@[f / (dim as int)]@[f % (dim as int)]@,
                        parsed@[f / (dim as int)]@[f % (dim as int)],
                        nd,
                        missing_value,
                    ) && cell_accepted(
                        table.cells@[f / (dim as int)]@[f % (dim as int)]@,
                        parsed@[f / (dim as int)]@[f % (dim as int)],
                        nd,
                    ),
            decreases n - i,
        {
            let row_cells: &Vec<String> = &table.cells[i];
            let row_parsed: &Vec<Option<T>> = &parsed[i];
            let mut k: usize = 0;
            while k < dim
                invariant
                    k <= dim,
                    i < n,
                    n == table.cells@.len(),
                    dim as int == self.spec_columns().len(),
                    dim >= 1,
                    nd == self.spec_no_data(),
                    parsed@.len() == table.cells@.len(),
                    row_cells == table.cells@[i as int],
                    row_parsed == parsed@[i as int],
                    forall|q: int|
                        0 <= q < parsed@.len() ==> (#[trigger] parsed@[q]@).len() == dim as int,
                    forall|q: int|
                        0 <= q < table.cells@.len() ==> (#[trigger] table.cells@[q]@).len()
                            == dim as int,
                    data@.len() == i * dim + k,
                    forall|f: int|
                        0 <= f < data@.len() ==> #[trigger] data@[f] == cell_value(
                            table.cells@[f / (dim as int)]@[f % (dim as int)]@,
                            parsed@[f / (dim as int)]@[f % (dim as int)],
                            nd,
                            missing_value,
                        ) && cell_accepted(
                            table.cells@[f / (dim as int)]@[f % (dim as int)]@,
                            parsed@[f / (dim as int)]@[f % (dim as int)],
                            nd,
                        ),
                decreases dim - k,
            {
                let cell: &String = &row_cells[k];
                let v: T = if str_eq(cell.as_str(), self.options.no_data.as_str()) {
                    missing_value
                } else {
                    match row_parsed[k] {
                        Some(v) => v,
                        None => {
                            proof {
                                assert forall|q: int, l: int|
                                    0 <= q < table.cells@.len() && 0 <= l < dim as int && q * (
                                    dim as int) + l < i * (dim as int) + k implies cell_accepted(
                                    (#[trigger] table.cells@[q]@[l])@,
                                    parsed@[q]@[l],
                                    nd,
                                ) by {
                                    let f = q * (dim as int) + l;
                                    assert(0 <= q * (dim as int) + l) by (nonlinear_arith)
                                        requires 0 <= q && 0 <= l && dim >= 1;
                                    lemma_fundamental_div_mod_converse(f, dim as int, q, l);
                                    assert(data@[f] == cell_value(
                                        table.cells@[f / (dim as int)]@[f % (dim as int)]@,
                                        parsed@[f / (dim as int)]@[f % (dim as int)],
                                        nd,
                                        missing_value,
                                    ));
                                }
                            }
                            let mut m = "Unable to parse value '".to_owned();
                            m.append(cell.as_str());
                            m.append("' to float.");
                            return Err(CsvError::ParseError(m));
                        },
                    }
                };
                data.push(v);
                proof {
                    let d = dim as int;
                    let f0 = i as int * d + k as int;
                    lemma_fundamental_div_mod_converse(f0, d, i as int, k as int);
                    assert(table.cells@[f0 / d]@[f0 % d]@ == row_cells@[k as int]@);
                    assert(parsed@[f0 / d]@[f0 % d] == row_parsed@[k as int]);
                    assert(data@[f0] == v);
                    assert(v == cell_value(row_cells@[k as int]@, row_parsed@[k as int], nd, missing_value));
                }
                k += 1;
            }
            proof {
                assert((i + 1) * dim == i * dim + dim) by (nonlinear_arith);
            }
            i += 1;
        }
        proof {
            lemma_mod_multiples_basic(n as int, dim as int);
            lemma_fundamental_div_mod_converse(n as int * dim as int, dim as int, n as int, 0);
        }
        let ghost gdata = data@;
        proof {
            assert(gdata.len() == n as int * (dim as int));
            assert forall|f: int| 0 <= f < gdata.len() implies #[trigger] gdata[f] == cell_value(
                table.cells@[f / (dim as int)]@[f % (dim as int)]@,
                parsed@[f / (dim as int)]@[f % (dim as int)],
                nd,
                missing_value,
            ) && cell_accepted(
                table.cells@[f / (dim as int)]@[f % (dim as int)]@,
                parsed@[f / (dim as int)]@[f % (dim as int)],
                nd,
            ) by {
                assert(data@[f] == cell_value(
                    table.cells@[f / (dim as int)]@[f % (dim as int)]@,
                    parsed@[f / (dim as int)]@[f % (dim as int)],
                    nd,
                    missing_value,
                ));
            }
        }
        let points = match Points::from_raw(data, dim) {
            Ok(p) => p,
            Err(_) => {
                proof {
                    assert(false);
                }
                vstd::pervasive::unreached()
            },
        };
        let owned_ids: Option<Vec<String>> = match &table.ids {
            Some(v) => {
                let mut idsv: Vec<String> = Vec::new();
                let mut q: usize = 0;
                while q < v.len()
                    invariant
                        q <= v@.len(),
                        idsv@.len() == q,
                        forall|x: int| 0 <= x < q ==> #[trigger] idsv@[x] == v@[x],
                    decreases v@.len() - q,
                {
                    idsv.push(v[q].clone());
                    q += 1;
                }
                proof {
                    assert(idsv@ =~= v@);
                }
                Some(idsv)
            },
            None => None,
        };
        let collection = match PointCollection::new(points, owned_ids) {
            Ok(c) => c,
            Err(_) => {
                proof {
                    assert(false);
                }
                vstd::pervasive::unreached()
            },
        };
        proof {
            assert forall|i2: int, k2: int|
                0 <= i2 < table.cells@.len() && 0 <= k2 < self.spec_columns().len() implies {
                &&& cell_accepted(
                    (#[trigger] table.cells@[i2]@[k2])@,
                    parsed@[i2]@[k2],
                    self.spec_no_data(),
                )
                &&& collection.spec_points().spec_data()[i2 * self.spec_columns().len() + k2]
                    == cell_value(
                    table.cells@[i2]@[k2]@,
                    parsed@[i2]@[k2],
                    self.spec_no_data(),
                    missing_value,
                )
            } by {
                let d = dim as int;
                assert(0 <= i2 * d + k2 && i2 * d + k2 < n as int * d) by (nonlinear_arith)
                    requires 0 <= i2 < n as int && 0 <= k2 < d && d >= 1;
                lemma_fundamental_div_mod_converse(i2 * d + k2, d, i2, k2);
                let f = i2 * d + k2;
                assert(gdata[f] == cell_value(
                    table.cells@[f / d]@[f % d]@,
                    parsed@[f / d]@[f % d],
                    nd,
                    missing_value,
                ) && cell_accepted(
                    table.cells@[f / d]@[f % d]@,
                    parsed@[f / d]@[f % d],
                    nd,
                ));
                assert(collection.spec_points().spec_data() == gdata);
            }
        }
        Ok(collection)
    }
}

} // verus!

verus! {

use crate::io::PointReader;

impl PointReader for CsvPointReader {
    type ErrorType = CsvError;

    /// Reads a delimited text as `parse_table` does.
    fn read_content(&self, content: &str) -> Result<CellTable, CsvError> {
        self.parse_table(content)
    }
}

} // verus!
