//! Transfer credits: the rows of the transfer section, mended where a page
//! break split one, and the course that each row but the last records.

use vstd::prelude::*;
use crate::chunk::{views, Chunk, ChunkView};
use crate::error::{ExtractError, Mismatch};
use crate::record::{transfer_views, Transfer, TransferView};
use crate::row::{rows, section_rows, table};
use crate::semester::{course_at, course_from, course_in, GRADE_COLUMN};
use crate::text::{has_prefix, starts_with_text};
use crate::vocab::{is_grade_text, texts};

verus! {

/// The number of columns of a wide row. A course row of this width has its
/// course columns one further to the right; a row of this width after a
/// course row names a school.
pub const WIDE_ROW: usize = 10;

/// The number of columns of a short row that names a school.
pub const SCHOOL_ROW: usize = 2;

/// The column of a school row that holds the school's name.
pub const SCHOOL_COLUMN: usize = 1;

/// The tag that begins the cell which a page break adds at the end of the
/// row that it splits.
pub open spec fn page_break_tag() -> Seq<char> {
    "SFUSR"@
}

/// The table with an empty cell put before its first row, which lacks the
/// leading spacer column of the others.
pub open spec fn spaced(table: Seq<Seq<Seq<char>>>) -> Seq<Seq<Seq<char>>> {
    if table.len() == 0 {
        table
    } else {
        table.update(0, seq![""@] + table[0])
    }
}

/// Whether a row ends in the cell that a page break adds.
pub open spec fn ends_in_break(row: Seq<Seq<char>>) -> bool {
    row.len() > 0 && has_prefix(row.last(), page_break_tag())
}

/// The table with every row that a page break split made whole again: in one
/// sweep from the top, a row that ends in a page-break cell loses that cell
/// and takes the cells of the row after it, which leaves the table; the
/// sweep goes on after it. The last row is never looked at. A row without
/// cells, other than the last, breaks the layout.
pub open spec fn merged(table: Seq<Seq<Seq<char>>>) -> Result<Seq<Seq<Seq<char>>>, ExtractError>
    decreases table.len(),
{
    if table.len() <= 1 {
        Ok(table)
    } else if table[0].len() == 0 {
        Err(ExtractError::StructuralMismatch(Mismatch::RowTooShort))
    } else if ends_in_break(table[0]) {
        match merged(table.skip(2)) {
            Ok(rest) => Ok(seq![table[0].drop_last() + table[1]] + rest),
            Err(e) => Err(e),
        }
    } else {
        match merged(table.skip(1)) {
            Ok(rest) => Ok(seq![table[0]] + rest),
            Err(e) => Err(e),
        }
    }
}

/// Where the course columns of a row begin: one to the right in a wide row.
pub open spec fn course_offset(row: Seq<Seq<char>>) -> int {
    if row.len() == WIDE_ROW {
        1
    } else {
        0
    }
}

/// The school that the row after a course row names, if it names one.
pub open spec fn school_of(next: Seq<Seq<char>>) -> Option<Seq<char>> {
    if next.len() == WIDE_ROW || next.len() == SCHOOL_ROW {
        Some(next[SCHOOL_COLUMN as int])
    } else {
        None
    }
}

/// The transfer that `row` records, with the school that `next` may name.
pub open spec fn transfer_at(row: Seq<Seq<char>>, next: Seq<Seq<char>>) -> Result<
    TransferView,
    ExtractError,
> {
    match course_in(row, course_offset(row)) {
        Ok(course) => Ok(TransferView { course, school: school_of(next) }),
        Err(e) => Err(e),
    }
}

/// The transfers of a mended table: one for each row but the last, in order.
/// The first row that breaks the layout decides the failure.
pub open spec fn transfers_of(table: Seq<Seq<Seq<char>>>) -> Result<Seq<TransferView>, ExtractError>
    decreases table.len(),
{
    if table.len() <= 1 {
        Ok(seq![])
    } else {
        match transfers_of(table.drop_last()) {
            Err(e) => Err(e),
            Ok(before) => match transfer_at(table[table.len() - 2], table.last()) {
                Err(e) => Err(e),
                Ok(t) => Ok(before.push(t)),
            },
        }
    }
}

/// The transfers of a transfer section.
pub open spec fn transfers(chunks: Seq<ChunkView>) -> Result<Seq<TransferView>, ExtractError> {
    let raw = rows(chunks, false);
    if raw.len() == 0 {
        Err(ExtractError::StructuralMismatch(Mismatch::NoTransferRows))
    } else {
        match merged(spaced(raw)) {
            Err(e) => Err(e),
            Ok(mended) => transfers_of(mended),
        }
    }
}

/// What a result of [`merge_page_breaks`] stands for.
pub open spec fn table_view(r: Result<Vec<Vec<&str>>, ExtractError>) -> Result<
    Seq<Seq<Seq<char>>>,
    ExtractError,
> {
    match r {
        Ok(t) => Ok(table(t@)),
        Err(e) => Err(e),
    }
}

/// What a result of [`process_transfers`] stands for.
pub open spec fn transfers_view(r: Result<Vec<Transfer>, ExtractError>) -> Result<
    Seq<TransferView>,
    ExtractError,
> {
    match r {
        Ok(v) => Ok(transfer_views(v@)),
        Err(e) => Err(e),
    }
}

/// What was mended so far, followed by what the rest of the sweep yields.
pub open spec fn followed(
    done: Seq<Seq<Seq<char>>>,
    rest: Result<Seq<Seq<Seq<char>>>, ExtractError>,
) -> Result<Seq<Seq<Seq<char>>>, ExtractError> {
    match rest {
        Ok(later) => Ok(done + later),
        Err(e) => Err(e),
    }
}

/// Appends the first `count` cells of `from` to `to`.
fn extend_cells<'a>(to: &mut Vec<&'a str>, from: &Vec<&'a str>, count: usize)
    requires
        count <= from.len(),
    ensures
        texts(final(to)@) == texts(old(to)@) + texts(from@).take(count as int),
{
    let mut i: usize = 0;
    proof {
        assert(texts(to@) =~= texts(old(to)@) + texts(from@).take(0));
    }
    while i < count
        invariant
            i <= count <= from.len(),
            texts(to@) == texts(old(to)@) + texts(from@).take(i as int),
        decreases count - i,
    {
        let ghost before = to@;
        to.push(from[i]);
        proof {
            assert(texts(to@) =~= texts(before).push(from@[i as int]@));
            assert(texts(to@) =~= texts(old(to)@) + texts(from@).take(i + 1));
        }
        i += 1;
    }
}

/// The table with an empty cell put before its first row.
pub fn add_spacer<'a>(rows: &Vec<Vec<&'a str>>) -> (out: Vec<Vec<&'a str>>)
    ensures
        table(out@) == spaced(table(rows@)),
{
    let mut out: Vec<Vec<&'a str>> = Vec::new();
    if rows.len() == 0 {
        proof {
            assert(table(out@) =~= table(rows@));
        }
        return out;
    }
    let mut first: Vec<&'a str> = Vec::new();
    first.push("");
    proof {
        assert(texts(first@) =~= seq![""@]);
    }
    extend_cells(&mut first, &rows[0], rows[0].len());
    proof {
        assert(texts(rows@[0]@).take(rows@[0]@.len() as int) =~= texts(rows@[0]@));
    }
    out.push(first);
    let mut i: usize = 1;
    proof {
        assert(table(out@) =~= spaced(table(rows@)).take(1));
    }
    while i < rows.len()
        invariant
            1 <= i <= rows.len(),
            table(out@) == spaced(table(rows@)).take(i as int),
        decreases rows.len() - i,
    {
        let mut row: Vec<&'a str> = Vec::new();
        proof {
            assert(texts(row@) =~= seq![]);
        }
        extend_cells(&mut row, &rows[i], rows[i].len());
        let ghost before = out@;
        out.push(row);
        proof {
            assert(texts(rows@[i as int]@).take(rows@[i as int]@.len() as int) =~= texts(
                rows@[i as int]@,
            ));
            assert(texts(row@) =~= texts(rows@[i as int]@));
            assert(table(out@) =~= table(before).push(texts(row@)));
            assert(table(out@) =~= spaced(table(rows@)).take(i + 1));
        }
        i += 1;
    }
    proof {
        assert(spaced(table(rows@)).take(rows@.len() as int) =~= spaced(table(rows@)));
    }
    out
}

/// The table with every row that a page break split made whole again.
pub fn merge_page_breaks<'a>(rows: &Vec<Vec<&'a str>>) -> (r: Result<
    Vec<Vec<&'a str>>,
    ExtractError,
>)
    ensures
        table_view(r) == merged(table(rows@)),
{
    let n = rows.len();
    let mut out: Vec<Vec<&'a str>> = Vec::new();
    let mut i: usize = 0;
    proof {
        assert(table(rows@).skip(0) =~= table(rows@));
        assert(table(out@) =~= seq![]);
        assert(followed(table(out@), merged(table(rows@))) == merged(table(rows@))) by {
            match merged(table(rows@)) {
                Ok(m) => {
                    assert(table(out@) + m =~= m);
                },
                Err(_) => {},
            }
        }
    }
    while i < n
        invariant
            n == rows.len(),
            i <= n,
            merged(table(rows@)) == followed(table(out@), merged(table(rows@).skip(i as int))),
        decreases n - i,
    {
        let ghost rest = table(rows@).skip(i as int);
        let ghost before = out@;
        proof {
            assert(rest[0] == texts(rows@[i as int]@));
        }
        let mut row: Vec<&'a str> = Vec::new();
        proof {
            assert(texts(row@) =~= seq![]);
        }
        let width = rows[i].len();
        if n - i > 1 {
            proof {
                assert(rest[1] == texts(rows@[i + 1]@));
                assert(rest.skip(1) =~= table(rows@).skip(i + 1));
                assert(rest.skip(2) =~= table(rows@).skip(i + 2));
            }
            if width == 0 {
                return Err(ExtractError::StructuralMismatch(Mismatch::RowTooShort));
            }
            if starts_with_text(rows[i][width - 1], "SFUSR") {
                extend_cells(&mut row, &rows[i], width - 1);
                extend_cells(&mut row, &rows[i + 1], rows[i + 1].len());
                out.push(row);
                proof {
                    assert(texts(rows@[i + 1]@).take(rows@[i + 1]@.len() as int) =~= texts(
                        rows@[i + 1]@,
                    ));
                    assert(texts(row@) =~= rest[0].drop_last() + rest[1]);
                    assert(table(out@) =~= table(before).push(texts(row@)));
                    lemma_followed_push(table(before), texts(row@), merged(rest.skip(2)));
                }
                i += 2;
                continue;
            }
        }
        extend_cells(&mut row, &rows[i], width);
        out.push(row);
        proof {
            assert(texts(rows@[i as int]@).take(width as int) =~= texts(rows@[i as int]@));
            assert(texts(row@) =~= rest[0]);
            assert(table(out@) =~= table(before).push(texts(row@)));
            assert(rest.skip(1) =~= table(rows@).skip(i + 1));
            if n - i > 1 {
                lemma_followed_push(table(before), texts(row@), merged(rest.skip(1)));
            } else {
                assert(table(out@) + rest.skip(1) =~= table(before) + rest);
            }
        }
        i += 1;
    }
    proof {
        assert(table(out@) + Seq::<Seq<Seq<char>>>::empty() =~= table(out@));
    }
    Ok(out)
}

/// A row mended next may be counted with what was mended so far or with what
/// follows.
proof fn lemma_followed_push(
    done: Seq<Seq<Seq<char>>>,
    next: Seq<Seq<char>>,
    rest: Result<Seq<Seq<Seq<char>>>, ExtractError>,
)
    ensures
        followed(done.push(next), rest) == followed(
            done,
            match rest {
                Ok(later) => Ok(seq![next] + later),
                Err(e) => Err(e),
            },
        ),
{
    match rest {
        Ok(later) => {
            assert(done.push(next) + later =~= done + (seq![next] + later));
        },
        Err(_) => {},
    }
}

/// The transfer that `row` records, with the school that `next` may name.
pub fn transfer_from(row: &Vec<&str>, next: &Vec<&str>) -> (r: Result<Transfer, ExtractError>)
    ensures
        match transfer_at(texts(row@), texts(next@)) {
            Ok(t) => r is Ok && r.unwrap()@ == t,
            Err(e) => r == Err::<Transfer, ExtractError>(e),
        },
{
    let school = if next.len() == WIDE_ROW || next.len() == SCHOOL_ROW {
        Some(next[SCHOOL_COLUMN].to_owned())
    } else {
        None
    };
    let offset: usize = if row.len() == WIDE_ROW {
        1
    } else {
        0
    };
    match course_from(row, offset) {
        Ok(course) => Ok(Transfer { course, school }),
        Err(e) => Err(e),
    }
}

/// The transfers of a mended table.
pub fn build_transfers(rows: &Vec<Vec<&str>>) -> (r: Result<Vec<Transfer>, ExtractError>)
    ensures
        transfers_view(r) == transfers_of(table(rows@)),
{
    let mut out: Vec<Transfer> = Vec::new();
    let n = rows.len();
    proof {
        assert(transfer_views(out@) =~= seq![]);
    }
    if n <= 1 {
        return Ok(out);
    }
    let mut i: usize = 0;
    proof {
        assert(table(rows@).take(1).len() == 1);
    }
    while i < n - 1
        invariant
            n == rows.len(),
            n > 1,
            i <= n - 1,
            transfers_of(table(rows@).take(i + 1)) == Ok::<Seq<TransferView>, ExtractError>(
                transfer_views(out@),
            ),
        decreases n - i,
    {
        let ghost upto = table(rows@).take(i + 2);
        proof {
            assert(upto.drop_last() =~= table(rows@).take(i + 1));
            assert(upto[upto.len() - 2] == texts(rows@[i as int]@));
            assert(upto.last() == texts(rows@[i + 1]@));
        }
        let ghost before = out@;
        match transfer_from(&rows[i], &rows[i + 1]) {
            Ok(t) => {
                out.push(t);
                proof {
                    assert(transfer_views(out@) =~= transfer_views(before).push(t@));
                }
            },
            Err(e) => {
                proof {
                    lemma_transfers_of_fails(table(rows@), i + 2);
                }
                return Err(e);
            },
        }
        i += 1;
    }
    proof {
        assert(table(rows@).take(n as int) =~= table(rows@));
    }
    Ok(out)
}

/// A failure among the first `upto` rows is the failure of the whole table.
pub proof fn lemma_transfers_of_fails(table: Seq<Seq<Seq<char>>>, upto: int)
    requires
        0 <= upto <= table.len(),
        transfers_of(table.take(upto)) is Err,
    ensures
        transfers_of(table) == transfers_of(table.take(upto)),
    decreases table.len() - upto,
{
    if upto < table.len() {
        assert(table.take(upto + 1).drop_last() =~= table.take(upto));
        lemma_transfers_of_fails(table, upto + 1);
    } else {
        assert(table.take(upto) =~= table);
    }
}

/// The transfers of a transfer section, in order of appearance.
pub fn process_transfers(chunks: &[Chunk]) -> (r: Result<Vec<Transfer>, ExtractError>)
    ensures
        transfers_view(r) == transfers(views(chunks@)),
        r matches Ok(v) ==> forall|i: int| 0 <= i < v@.len() ==> (#[trigger] v@[i])@.wf(),
{
    let raw = section_rows(chunks, false);
    if raw.len() == 0 {
        return Err(ExtractError::StructuralMismatch(Mismatch::NoTransferRows));
    }
    let with_spacer = add_spacer(&raw);
    let r = match merge_page_breaks(&with_spacer) {
        Err(e) => Err(e),
        Ok(mended) => build_transfers(&mended),
    };
    proof {
        if r is Ok {
            let v = r->Ok_0;
            lemma_transfers_wf(views(chunks@));
            assert forall|i: int| 0 <= i < v@.len() implies (#[trigger] v@[i])@.wf() by {
                assert(transfers(views(chunks@)).unwrap()[i] == v@[i]@);
            }
        }
    }
    r
}

/// Whether the sweep keeps a row as it is: the row has a cell, and its last
/// cell is no page-break cell.
pub open spec fn is_whole(row: Seq<Seq<char>>) -> bool {
    row.len() > 0 && !ends_in_break(row)
}

/// A table whose rows, the last aside, are whole is left as it is.
pub proof fn lemma_merged_whole(table: Seq<Seq<Seq<char>>>)
    requires
        forall|i: int| 0 <= i < table.len() - 1 ==> is_whole(#[trigger] table[i]),
    ensures
        merged(table) == Ok::<Seq<Seq<Seq<char>>>, ExtractError>(table),
    decreases table.len(),
{
    if table.len() > 1 {
        assert(is_whole(table[0]));
        let rest = table.skip(1);
        assert forall|i: int| 0 <= i < rest.len() - 1 implies is_whole(#[trigger] rest[i]) by {
            assert(rest[i] == table[i + 1]);
        }
        lemma_merged_whole(rest);
        assert(seq![table[0]] + rest =~= table);
    }
}

/// Whole rows at the top of a table are kept, and the sweep goes on below
/// them.
pub proof fn lemma_merged_below_whole(above: Seq<Seq<Seq<char>>>, below: Seq<Seq<Seq<char>>>)
    requires
        forall|i: int| 0 <= i < above.len() ==> is_whole(#[trigger] above[i]),
        below.len() > 0,
    ensures
        merged(above + below) == followed(above, merged(below)),
    decreases above.len(),
{
    let table = above + below;
    if above.len() == 0 {
        assert(table =~= below);
        match merged(below) {
            Ok(m) => {
                assert(above + m =~= m);
            },
            Err(_) => {},
        }
    } else {
        assert(table[0] == above[0]);
        assert(is_whole(above[0]));
        let rest = above.skip(1);
        assert(table.skip(1) =~= rest + below);
        assert forall|i: int| 0 <= i < rest.len() implies is_whole(#[trigger] rest[i]) by {
            assert(rest[i] == above[i + 1]);
        }
        lemma_merged_below_whole(rest, below);
        match merged(below) {
            Ok(m) => {
                assert(seq![above[0]] + (rest + m) =~= above + m);
            },
            Err(_) => {},
        }
    }
}

/// A row that ends in a page-break cell is merged with the row after it into
/// one row, and the table has one row fewer: where the rows above are whole
/// and so are the rows below, the last aside, the sweep gives the rows
/// above, then the broken row without its page-break cell followed by the
/// cells of the next row, then the rows below.
pub proof fn lemma_page_break_merges(
    above: Seq<Seq<Seq<char>>>,
    broken: Seq<Seq<char>>,
    next: Seq<Seq<char>>,
    below: Seq<Seq<Seq<char>>>,
)
    requires
        forall|i: int| 0 <= i < above.len() ==> is_whole(#[trigger] above[i]),
        ends_in_break(broken),
        forall|i: int| 0 <= i < below.len() - 1 ==> is_whole(#[trigger] below[i]),
    ensures
        merged(above + seq![broken, next] + below) == Ok::<Seq<Seq<Seq<char>>>, ExtractError>(
            above + seq![broken.drop_last() + next] + below,
        ),
        (above + seq![broken.drop_last() + next] + below).len() == (above + seq![broken, next]
            + below).len() - 1,
{
    let tail = seq![broken, next] + below;
    assert(tail.skip(2) =~= below);
    lemma_merged_whole(below);
    assert(merged(tail) == Ok::<Seq<Seq<Seq<char>>>, ExtractError>(
        seq![broken.drop_last() + next] + below,
    ));
    lemma_merged_below_whole(above, tail);
    assert(above + seq![broken, next] + below =~= above + tail);
    assert(above + (seq![broken.drop_last() + next] + below) =~= above + seq![
        broken.drop_last() + next,
    ] + below);
}

/// The sweep never adds a row, and leaves a row where there was one.
pub proof fn lemma_merged_length(table: Seq<Seq<Seq<char>>>)
    requires
        merged(table) is Ok,
    ensures
        merged(table).unwrap().len() <= table.len(),
        table.len() > 0 ==> merged(table).unwrap().len() > 0,
    decreases table.len(),
{
    if table.len() > 1 {
        if ends_in_break(table[0]) {
            lemma_merged_length(table.skip(2));
        } else {
            lemma_merged_length(table.skip(1));
        }
    }
}

/// A mended table fails only as a structural mismatch.
pub proof fn lemma_transfers_of_failure(table: Seq<Seq<Seq<char>>>)
    ensures
        transfers_of(table) is Err ==> transfers_of(table) matches Err(
            ExtractError::StructuralMismatch(_),
        ),
    decreases table.len(),
{
    if table.len() > 1 {
        lemma_transfers_of_failure(table.drop_last());
    }
}

/// A mended table in which a row other than the last reaches its grade
/// column and holds an unrecognised grade there fails.
pub proof fn lemma_table_with_unknown_grade_fails(table: Seq<Seq<Seq<char>>>, at: int)
    requires
        0 <= at < table.len() - 1,
        table[at].len() > course_offset(table[at]) + GRADE_COLUMN,
        !is_grade_text(table[at][course_offset(table[at]) + GRADE_COLUMN]),
    ensures
        transfers_of(table) matches Err(ExtractError::StructuralMismatch(_)),
    decreases table.len(),
{
    lemma_transfers_of_failure(table);
    if at < table.len() - 2 {
        lemma_table_with_unknown_grade_fails(table.drop_last(), at);
    }
}

/// An unrecognised grade is never passed over: a transfer section whose
/// mended table holds, in a row other than the last, a grade outside the
/// grade vocabulary fails as a structural mismatch.
pub proof fn lemma_unknown_grade_is_fatal(chunks: Seq<ChunkView>, at: int)
    requires
        merged(spaced(rows(chunks, false))) is Ok,
        ({
            let table = merged(spaced(rows(chunks, false))).unwrap();
            &&& 0 <= at < table.len() - 1
            &&& table[at].len() > course_offset(table[at]) + GRADE_COLUMN
            &&& !is_grade_text(table[at][course_offset(table[at]) + GRADE_COLUMN])
        }),
    ensures
        transfers(chunks) matches Err(ExtractError::StructuralMismatch(_)),
{
    let table = merged(spaced(rows(chunks, false))).unwrap();
    lemma_merged_length(spaced(rows(chunks, false)));
    lemma_table_with_unknown_grade_fails(table, at);
}

/// There is one transfer for each row of a mended table but the last, and
/// each holds a recognised grade.
pub proof fn lemma_transfers_of_wf(table: Seq<Seq<Seq<char>>>)
    requires
        transfers_of(table) is Ok,
    ensures
        transfers_of(table).unwrap().len() == if table.len() == 0 {
            0
        } else {
            table.len() - 1
        },
        forall|i: int|
            0 <= i < transfers_of(table).unwrap().len() ==> (#[trigger] transfers_of(
                table,
            ).unwrap()[i]).wf(),
    decreases table.len(),
{
    if table.len() > 1 {
        lemma_transfers_of_wf(table.drop_last());
    }
}

/// Every extracted transfer holds a recognised grade.
pub proof fn lemma_transfers_wf(chunks: Seq<ChunkView>)
    requires
        transfers(chunks) is Ok,
    ensures
        forall|i: int|
            0 <= i < transfers(chunks).unwrap().len() ==> (#[trigger] transfers(
                chunks,
            ).unwrap()[i]).wf(),
{
    lemma_transfers_of_wf(merged(spaced(rows(chunks, false))).unwrap());
}

/// A course row followed by a row that names a school yields one transfer:
/// the course of the row, read from its course columns, at the school that
/// the second column of the next row names.
pub proof fn lemma_course_with_school(row: Seq<Seq<char>>, next: Seq<Seq<char>>)
    requires
        row.len() > course_offset(row) + GRADE_COLUMN,
        is_grade_text(row[course_offset(row) + GRADE_COLUMN]),
        next.len() == WIDE_ROW || next.len() == SCHOOL_ROW,
    ensures
        transfers_of(seq![row, next]) == Ok::<Seq<TransferView>, ExtractError>(
            seq![
                TransferView {
                    course: course_at(row, course_offset(row)),
                    school: Some(next[SCHOOL_COLUMN as int]),
                },
            ],
        ),
{
    let table = seq![row, next];
    assert(table.drop_last() =~= seq![row]);
    assert(transfers_of(table.drop_last()) == Ok::<Seq<TransferView>, ExtractError>(seq![]));
    assert(table[table.len() - 2] == row);
    assert(Seq::<TransferView>::empty().push(transfer_at(row, next).unwrap()) =~= seq![
        transfer_at(row, next).unwrap(),
    ]);
}

} // verus!
