//! Tables in CSV: cells between commas, rows between line ends, and quotes around cells that hold
//! either.
use vstd::prelude::*;

use crate::text::{chars_of, joined, texts};

verus! {

/// Where in a cell a reader stands.
#[derive(Debug, Clone, Copy, PartialEq, Eq, Structural)]
pub enum Place {
    /// In front of a cell.
    Front,
    /// In a cell without quotes.
    Bare,
    /// Between the quotes of a cell.
    Quoted,
    /// Behind a quote in a quoted cell: it ends the cell, or the next quote makes it part of it.
    Closing,
}

/// What was read of a table: whole rows, the whole cells of the next row, and a part of a cell.
#[verifier::ext_equal]
pub struct ReadModel {
    pub rows: Seq<Seq<Seq<char>>>,
    pub row: Seq<Seq<char>>,
    pub cell: Seq<char>,
    pub place: Place,
}

pub open spec fn ends_line(c: char) -> bool {
    c == '\n' || c == '\r'
}

impl ReadModel {
    pub open spec fn start() -> ReadModel {
        ReadModel {
            rows: Seq::empty(),
            row: Seq::empty(),
            cell: Seq::empty(),
            place: Place::Front,
        }
    }

    /// The cell is over.
    pub open spec fn cell_over(self) -> ReadModel {
        ReadModel {
            row: self.row.push(self.cell),
            cell: Seq::empty(),
            place: Place::Front,
            ..self
        }
    }

    /// The line is over. A line with nothing on it is no row.
    pub open spec fn line_over(self) -> ReadModel {
        if self.place == Place::Front && self.row.len() == 0 {
            self
        } else {
            ReadModel {
                rows: self.rows.push(self.row.push(self.cell)),
                row: Seq::empty(),
                cell: Seq::empty(),
                place: Place::Front,
            }
        }
    }

    pub open spec fn with(self, c: char, place: Place) -> ReadModel {
        ReadModel { cell: self.cell.push(c), place, ..self }
    }

    /// What one more character comes to; none where text follows the end of a quoted cell.
    pub open spec fn next(self, c: char) -> Option<ReadModel> {
        match self.place {
            Place::Quoted => Some(
                if c == '"' {
                    ReadModel { place: Place::Closing, ..self }
                } else {
                    self.with(c, Place::Quoted)
                },
            ),
            Place::Closing if c == '"' => Some(self.with(c, Place::Quoted)),
            Place::Front if c == '"' => Some(ReadModel { place: Place::Quoted, ..self }),
            _ => if c == ',' {
                Some(self.cell_over())
            } else if ends_line(c) {
                Some(self.line_over())
            } else if self.place == Place::Closing {
                None
            } else {
                Some(self.with(c, Place::Bare))
            },
        }
    }
}

/// What a text comes to, read from a state on.
pub open spec fn read_on(state: ReadModel, text: Seq<char>) -> Option<ReadModel>
    decreases text.len(),
{
    if text.len() == 0 {
        Some(state)
    } else {
        match state.next(text[0]) {
            Some(after) => read_on(after, text.skip(1)),
            None => None,
        }
    }
}

/// The rows of a table; none where a quoted cell does not end, or text follows its end.
pub open spec fn rows_in(text: Seq<char>) -> Option<Seq<Seq<Seq<char>>>> {
    match read_on(ReadModel::start(), text) {
        Some(state) => if state.place == Place::Quoted {
            None
        } else {
            Some(state.line_over().rows)
        },
        None => None,
    }
}

pub open spec fn row_models(rows: Seq<Vec<String>>) -> Seq<Seq<Seq<char>>> {
    Seq::new(rows.len(), |i: int| texts(rows[i]@))
}

struct Reader {
    rows: Vec<Vec<String>>,
    row: Vec<String>,
    cell: String,
    place: Place,
}

impl View for Reader {
    type V = ReadModel;

    closed spec fn view(&self) -> ReadModel {
        ReadModel {
            rows: row_models(self.rows@),
            row: texts(self.row@),
            cell: self.cell@,
            place: self.place,
        }
    }
}

impl Reader {
    fn new() -> (r: Self)
        ensures
            r@ == ReadModel::start(),
    {
        let r = Reader {
            rows: Vec::new(),
            row: Vec::new(),
            cell: String::new(),
            place: Place::Front,
        };
        assert(r@ =~= ReadModel::start());
        r
    }

    fn end_cell(&mut self)
        ensures
            final(self)@ == old(self)@.cell_over(),
    {
        let cell = self.cell.clone();
        self.row.push(cell);
        self.cell = String::new();
        self.place = Place::Front;
        assert(self@ =~= old(self)@.cell_over());
    }

    fn end_line(&mut self)
        ensures
            final(self)@ == old(self)@.line_over(),
    {
        if self.place == Place::Front && self.row.len() == 0 {
            assert(old(self)@.row.len() == old(self).row@.len());
            return;
        }
        self.end_cell();
        let mut row: Vec<String> = Vec::new();
        let ghost done = texts(self.row@);
        std::mem::swap(&mut row, &mut self.row);
        self.rows.push(row);
        assert(texts(self.row@) =~= Seq::<Seq<char>>::empty());
        assert(row_models(self.rows@) =~= row_models(old(self).rows@).push(done));
        assert(self@ =~= old(self)@.line_over());
    }

    fn add(&mut self, c: char, place: Place)
        ensures
            final(self)@ == old(self)@.with(c, place),
    {
        self.cell.push(c);
        self.place = place;
        assert(self@ =~= old(self)@.with(c, place));
    }

    fn take(&mut self, c: char) -> (r: bool)
        ensures
            match old(self)@.next(c) {
                Some(after) => r && final(self)@ == after,
                None => !r,
            },
    {
        if self.place == Place::Quoted {
            if c == '"' {
                self.place = Place::Closing;
            } else {
                self.add(c, Place::Quoted);
            }
            return true;
        }
        if c == '"' && self.place == Place::Closing {
            self.add(c, Place::Quoted);
            return true;
        }
        if c == '"' && self.place == Place::Front {
            self.place = Place::Quoted;
            return true;
        }
        if c == ',' {
            self.end_cell();
        } else if c == '\n' || c == '\r' {
            self.end_line();
        } else if self.place == Place::Closing {
            return false;
        } else {
            self.add(c, Place::Bare);
        }
        true
    }
}

/// Reads a table.
pub fn read_rows(text: &str) -> (r: Option<Vec<Vec<String>>>)
    ensures
        match r {
            Some(rows) => rows_in(text@) == Some(row_models(rows@)),
            None => rows_in(text@) is None,
        },
{
    let chars = chars_of(text);
    let mut reader = Reader::new();
    let mut i: usize = 0;
    assert(text@.skip(0) =~= text@);
    while i < chars.len()
        invariant
            i <= chars@.len(),
            chars@ == text@,
            read_on(reader@, text@.skip(i as int)) == read_on(ReadModel::start(), text@),
        decreases chars@.len() - i,
    {
        let ghost rest = text@.skip(i as int);
        assert(rest[0] == chars@[i as int]);
        assert(rest.skip(1) =~= text@.skip(i + 1));
        if !reader.take(chars[i]) {
            return None;
        }
        i = i + 1;
    }
    assert(text@.skip(i as int).len() == 0);
    if reader.place == Place::Quoted {
        return None;
    }
    reader.end_line();
    Some(reader.rows)
}

/// A text with every quote doubled.
pub open spec fn doubled(text: Seq<char>) -> Seq<char>
    decreases text.len(),
{
    if text.len() == 0 {
        Seq::empty()
    } else if text[0] == '"' {
        seq!['"', '"'] + doubled(text.skip(1))
    } else {
        seq![text[0]] + doubled(text.skip(1))
    }
}

/// A cell as it is written, in quotes.
pub open spec fn cell_text(cell: Seq<char>) -> Seq<char> {
    seq!['"'] + doubled(cell) + seq!['"']
}

/// The cells of a row from one on, with a comma between each two and a line end behind the last.
pub open spec fn row_text(row: Seq<Seq<char>>) -> Seq<char>
    decreases row.len(),
{
    if row.len() == 0 {
        seq!['\r', '\n']
    } else if row.len() == 1 {
        cell_text(row[0]) + seq!['\r', '\n']
    } else {
        cell_text(row[0]) + seq![','] + row_text(row.skip(1))
    }
}

/// A table as it is written.
pub open spec fn table_text(rows: Seq<Seq<Seq<char>>>) -> Seq<char>
    decreases rows.len(),
{
    if rows.len() == 0 {
        Seq::empty()
    } else {
        row_text(rows[0]) + table_text(rows.skip(1))
    }
}

fn write_cell(out: &mut String, cell: &str)
    ensures
        final(out)@ == old(out)@ + cell_text(cell@),
{
    let chars = chars_of(cell);
    out.push('"');
    let ghost base = out@;
    let mut i: usize = 0;
    assert(cell@.skip(0) =~= cell@);
    assert(out@ + doubled(cell@) =~= base + doubled(cell@));
    while i < chars.len()
        invariant
            i <= chars@.len(),
            chars@ == cell@,
            out@ + doubled(cell@.skip(i as int)) == base + doubled(cell@),
        decreases chars@.len() - i,
    {
        let ghost rest = cell@.skip(i as int);
        let ghost before = out@;
        let c: char = chars[i];
        assert(rest[0] == c);
        assert(rest.skip(1) =~= cell@.skip(i + 1));
        if c == '"' {
            out.push('"');
            out.push('"');
            assert(before + doubled(rest) =~= out@ + doubled(rest.skip(1)));
        } else {
            out.push(c);
            assert(before + doubled(rest) =~= out@ + doubled(rest.skip(1)));
        }
        i = i + 1;
    }
    assert(doubled(cell@.skip(i as int)) =~= Seq::empty());
    assert(out@ =~= base + doubled(cell@));
    out.push('"');
    assert(out@ =~= old(out)@ + cell_text(cell@));
}

fn write_row(out: &mut String, row: &Vec<String>)
    ensures
        final(out)@ == old(out)@ + row_text(texts(row@)),
{
    let ghost cells = texts(row@);
    let ghost whole = out@ + row_text(cells);
    let mut i: usize = 0;
    assert(cells.skip(0) =~= cells);
    while i < row.len()
        invariant
            i <= row@.len(),
            cells == texts(row@),
            out@ + row_text(cells.skip(i as int)) == whole,
        decreases row@.len() - i,
    {
        let ghost rest = cells.skip(i as int);
        let ghost before = out@;
        assert(rest[0] == row@[i as int]@);
        assert(rest.skip(1) =~= cells.skip(i + 1));
        write_cell(out, row[i].as_str());
        if i + 1 < row.len() {
            out.push(',');
        }
        proof {
            if i + 1 < row@.len() {
                assert(before + row_text(rest) =~= out@ + row_text(rest.skip(1)));
            } else {
                assert(rest.len() == 1);
                assert(rest.skip(1).len() == 0);
                assert(before + row_text(rest) =~= out@ + row_text(rest.skip(1)));
            }
        }
        i = i + 1;
    }
    assert(cells.skip(i as int).len() == 0);
    out.push('\r');
    out.push('\n');
    assert(out@ =~= whole);
}

/// Writes a table, every cell in quotes.
pub fn write_rows(rows: &Vec<Vec<String>>) -> (r: String)
    ensures
        r@ == table_text(row_models(rows@)),
{
    let ghost all = row_models(rows@);
    let mut out = String::new();
    let mut i: usize = 0;
    assert(all.skip(0) =~= all);
    assert(out@ + table_text(all) =~= table_text(all));
    while i < rows.len()
        invariant
            i <= rows@.len(),
            all == row_models(rows@),
            out@ + table_text(all.skip(i as int)) == table_text(all),
        decreases rows@.len() - i,
    {
        let ghost rest = all.skip(i as int);
        let ghost before = out@;
        assert(rest[0] == texts(rows@[i as int]@));
        assert(rest.skip(1) =~= all.skip(i + 1));
        write_row(&mut out, &rows[i]);
        assert(before + table_text(rest) =~= out@ + table_text(rest.skip(1)));
        i = i + 1;
    }
    assert(all.skip(i as int).len() == 0);
    assert(out@ =~= table_text(all));
    out
}

proof fn lemma_read_on_joins(state: ReadModel, a: Seq<char>, b: Seq<char>)
    ensures
        read_on(state, a + b) == match read_on(state, a) {
            Some(after) => read_on(after, b),
            None => None,
        },
    decreases a.len(),
{
    if a.len() == 0 {
        assert(a + b =~= b);
    } else {
        assert((a + b)[0] == a[0]);
        assert((a + b).skip(1) =~= a.skip(1) + b);
        if let Some(after) = state.next(a[0]) {
            lemma_read_on_joins(after, a.skip(1), b);
        }
    }
}

proof fn lemma_one(state: ReadModel, c: char)
    ensures
        read_on(state, seq![c]) == state.next(c),
{
    let text = seq![c];
    assert(text.skip(1) =~= Seq::empty());
    if let Some(after) = state.next(c) {
        assert(read_on(after, text.skip(1)) == Some(after));
    }
}

proof fn lemma_inside_reads_back(state: ReadModel, cell: Seq<char>)
    requires
        state.place == Place::Quoted,
    ensures
        read_on(state, doubled(cell)) == Some(ReadModel { cell: state.cell + cell, ..state }),
    decreases cell.len(),
{
    if cell.len() == 0 {
        assert(state.cell + cell =~= state.cell);
    } else {
        let c = cell[0];
        let after = state.with(c, Place::Quoted);
        let rest = cell.skip(1);
        lemma_inside_reads_back(after, rest);
        assert(after.cell + rest =~= state.cell + cell);
        if c == '"' {
            let closing = ReadModel { place: Place::Closing, ..state };
            lemma_read_on_joins(state, seq!['"', '"'], doubled(rest));
            assert(seq!['"', '"'] =~= seq!['"'] + seq!['"']);
            lemma_read_on_joins(state, seq!['"'], seq!['"']);
            lemma_one(state, '"');
            lemma_one(closing, '"');
            assert(closing.with(c, Place::Quoted) =~= after);
        } else {
            lemma_read_on_joins(state, seq![c], doubled(rest));
            lemma_one(state, c);
        }
    }
}

proof fn lemma_cell_reads_back(state: ReadModel, cell: Seq<char>)
    requires
        state.place == Place::Front,
        state.cell.len() == 0,
    ensures
        read_on(state, cell_text(cell)) == Some(
            ReadModel { cell, place: Place::Closing, ..state },
        ),
{
    let open = ReadModel { place: Place::Quoted, ..state };
    let full = ReadModel { cell: open.cell + cell, ..open };
    lemma_one(state, '"');
    lemma_inside_reads_back(open, cell);
    lemma_one(full, '"');
    lemma_read_on_joins(state, seq!['"'], doubled(cell));
    lemma_read_on_joins(state, seq!['"'] + doubled(cell), seq!['"']);
    assert(open.cell + cell =~= cell);
}

proof fn lemma_row_reads_back(state: ReadModel, row: Seq<Seq<char>>)
    requires
        state.place == Place::Front,
        state.cell.len() == 0,
        row.len() > 0,
    ensures
        read_on(state, row_text(row)) == Some(
            ReadModel {
                rows: state.rows.push(state.row + row),
                row: Seq::empty(),
                cell: Seq::empty(),
                place: Place::Front,
            },
        ),
    decreases row.len(),
{
    let cell = row[0];
    let closing = ReadModel { cell, place: Place::Closing, ..state };
    lemma_cell_reads_back(state, cell);
    if row.len() == 1 {
        let after = closing.line_over();
        lemma_read_on_joins(state, cell_text(cell), seq!['\r', '\n']);
        assert(seq!['\r', '\n'] =~= seq!['\r'] + seq!['\n']);
        lemma_read_on_joins(closing, seq!['\r'], seq!['\n']);
        lemma_one(closing, '\r');
        lemma_one(after, '\n');
        assert(state.row.push(cell) =~= state.row + row);
        assert(after.line_over() == after);
    } else {
        let after = closing.cell_over();
        let rest = row.skip(1);
        lemma_read_on_joins(state, cell_text(cell) + seq![','], row_text(rest));
        lemma_read_on_joins(state, cell_text(cell), seq![',']);
        lemma_one(closing, ',');
        lemma_row_reads_back(after, rest);
        assert(after.row + rest =~= state.row + row);
    }
}

proof fn lemma_table_reads_back(state: ReadModel, rows: Seq<Seq<Seq<char>>>)
    requires
        state.place == Place::Front,
        state.cell.len() == 0,
        state.row.len() == 0,
        forall|i: int| 0 <= i < rows.len() ==> (#[trigger] rows[i]).len() > 0,
    ensures
        read_on(state, table_text(rows)) == Some(
            ReadModel { rows: state.rows + rows, ..state },
        ),
    decreases rows.len(),
{
    if rows.len() == 0 {
        assert(state.rows + rows =~= state.rows);
    } else {
        let rest = rows.skip(1);
        lemma_row_reads_back(state, rows[0]);
        let after = ReadModel {
            rows: state.rows.push(state.row + rows[0]),
            row: Seq::empty(),
            cell: Seq::empty(),
            place: Place::Front,
        };
        lemma_read_on_joins(state, row_text(rows[0]), table_text(rest));
        assert(forall|i: int| 0 <= i < rest.len() ==> #[trigger] rest[i] == rows[i + 1]);
        lemma_table_reads_back(after, rest);
        assert(state.row + rows[0] =~= rows[0]);
        assert(after.rows + rest =~= state.rows + rows);
        assert(state.row =~= Seq::empty());
        assert(state.cell =~= Seq::empty());
    }
}

/// A table whose rows have cells reads back as it was written, whatever the cells hold.
pub proof fn tables_round_trip(rows: Seq<Seq<Seq<char>>>)
    requires
        forall|i: int| 0 <= i < rows.len() ==> (#[trigger] rows[i]).len() > 0,
    ensures
        rows_in(table_text(rows)) == Some(rows),
{
    lemma_table_reads_back(ReadModel::start(), rows);
    assert(ReadModel::start().rows + rows =~= rows);
}

/// A cell with nothing in it that the reader takes for more than text.
pub open spec fn is_plain(cell: Seq<char>) -> bool {
    forall|i: int|
        0 <= i < cell.len() ==> (#[trigger] cell[i]) != '"' && cell[i] != ',' && !ends_line(cell[i])
}

proof fn lemma_plain_reads(state: ReadModel, cell: Seq<char>)
    requires
        state.place == Place::Front || state.place == Place::Bare,
        is_plain(cell),
    ensures
        read_on(state, cell) == Some(
            ReadModel {
                cell: state.cell + cell,
                place: if cell.len() == 0 {
                    state.place
                } else {
                    Place::Bare
                },
                ..state
            },
        ),
    decreases cell.len(),
{
    if cell.len() == 0 {
        assert(state.cell + cell =~= state.cell);
    } else {
        let rest = cell.skip(1);
        let after = state.with(cell[0], Place::Bare);
        assert(cell[0] != '"');
        assert forall|i: int| 0 <= i < rest.len() implies (#[trigger] rest[i]) != '"' && rest[i]
            != ',' && !ends_line(rest[i]) by {
            assert(rest[i] == cell[i + 1]);
        }
        lemma_plain_reads(after, rest);
        assert(after.cell + rest =~= state.cell + cell);
    }
}

proof fn lemma_plain_row_reads(row: Seq<Seq<char>>)
    requires
        row.len() > 0,
        forall|i: int| 0 <= i < row.len() ==> is_plain(#[trigger] row[i]),
    ensures
        read_on(ReadModel::start(), joined(row, seq![','])) == Some(
            ReadModel {
                rows: Seq::empty(),
                row: row.drop_last(),
                cell: row.last(),
                place: if row.last().len() == 0 {
                    Place::Front
                } else {
                    Place::Bare
                },
            },
        ),
    decreases row.len(),
{
    let start = ReadModel::start();
    assert(is_plain(row[row.len() - 1]));
    if row.len() == 1 {
        lemma_plain_reads(start, row[0]);
        assert(start.cell + row[0] =~= row[0]);
        assert(row.drop_last() =~= Seq::empty());
    } else {
        let short = row.drop_last();
        assert forall|i: int| 0 <= i < short.len() implies is_plain(#[trigger] short[i]) by {
            assert(short[i] == row[i]);
        }
        lemma_plain_row_reads(short);
        let state = read_on(start, joined(short, seq![',']))->0;
        let after = state.cell_over();
        lemma_read_on_joins(start, joined(short, seq![',']) + seq![','], row.last());
        lemma_read_on_joins(start, joined(short, seq![',']), seq![',']);
        lemma_one(state, ',');
        lemma_plain_reads(after, row.last());
        assert(after.cell + row.last() =~= row.last());
        assert(short.drop_last().push(short.last()) =~= short);
    }
}

/// Cells without quotes, commas and line ends may stand without quotes: a line of them, with
/// commas between them, is the row of these cells.
pub proof fn plain_lines_are_rows(row: Seq<Seq<char>>)
    requires
        row.len() > 0,
        row.len() > 1 || row[0].len() > 0,
        forall|i: int| 0 <= i < row.len() ==> is_plain(#[trigger] row[i]),
    ensures
        rows_in(joined(row, seq![','])) == Some(seq![row]),
{
    lemma_plain_row_reads(row);
    let state = read_on(ReadModel::start(), joined(row, seq![',']))->0;
    assert(row.drop_last().push(row.last()) =~= row);
    assert(state.line_over().rows =~= seq![row]);
}

proof fn lemma_rows_before(state: ReadModel, before: Seq<Seq<Seq<char>>>, text: Seq<char>)
    ensures
        read_on(ReadModel { rows: before + state.rows, ..state }, text) == match read_on(
            state,
            text,
        ) {
            Some(after) => Some(ReadModel { rows: before + after.rows, ..after }),
            None => None,
        },
    decreases text.len(),
{
    if text.len() > 0 {
        let shifted = ReadModel { rows: before + state.rows, ..state };
        let c = text[0];
        if let Some(after) = state.next(c) {
            assert(before + state.rows.push(state.row.push(state.cell)) =~= (before
                + state.rows).push(state.row.push(state.cell)));
            assert(shifted.next(c) == Some(ReadModel { rows: before + after.rows, ..after }));
            lemma_rows_before(after, before, text.skip(1));
        } else {
            assert(shifted.next(c) is None);
        }
    }
}

/// Two tables with a line end between them are one table with the rows of both.
pub proof fn tables_follow_each_other(a: Seq<char>, b: Seq<char>)
    requires
        rows_in(a) is Some,
        rows_in(b) is Some,
    ensures
        rows_in(a + seq!['\n'] + b) == Some(rows_in(a)->0 + rows_in(b)->0),
        rows_in(a + seq!['\r', '\n'] + b) == Some(rows_in(a)->0 + rows_in(b)->0),
{
    let start = ReadModel::start();
    let state = read_on(start, a)->0;
    let after = state.line_over();
    let ended = if state.place == Place::Front && state.row.len() == 0 {
        state
    } else {
        after
    };
    lemma_fresh(start, a);
    lemma_one(state, '\n');
    lemma_one(state, '\r');
    lemma_one(after, '\n');
    lemma_read_on_joins(start, a, seq!['\n']);
    lemma_read_on_joins(start, a + seq!['\n'], b);
    assert(seq!['\r', '\n'] =~= seq!['\r'] + seq!['\n']);
    lemma_read_on_joins(state, seq!['\r'], seq!['\n']);
    lemma_read_on_joins(start, a, seq!['\r', '\n']);
    lemma_read_on_joins(start, a + seq!['\r', '\n'], b);
    let rows = rows_in(a)->0;
    assert(ended.row =~= Seq::empty() && ended.cell =~= Seq::empty());
    assert(ended =~= (ReadModel { rows: rows + start.rows, ..start }));
    lemma_rows_before(start, rows, b);
    let last = read_on(start, b)->0;
    assert(rows + last.rows.push(last.row.push(last.cell)) =~= (rows + last.rows).push(
        last.row.push(last.cell),
    ));
}

/// In front of a cell nothing of it has been read.
proof fn lemma_fresh(state: ReadModel, text: Seq<char>)
    requires
        state.place == Place::Front ==> state.cell.len() == 0,
        read_on(state, text) is Some,
    ensures
        read_on(state, text)->0.place == Place::Front ==> read_on(state, text)->0.cell.len() == 0,
    decreases text.len(),
{
    if text.len() > 0 {
        lemma_fresh(state.next(text[0])->0, text.skip(1));
    }
}

} // verus!
