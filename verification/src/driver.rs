//! The pipeline driver: pulls data rows in file order, enforces the
//! row-count limit, folds each service response into a verdict, and emits
//! every processed row with its verdict column.
//!
//! The driver is a pure function of the data rows, the limit and the
//! response bodies the service gave back, one body per issued query; a
//! missing body stands for a request that failed outright, which counts
//! as a negative verdict like every other failure.

use vstd::prelude::*;
use crate::query::{build_query, interpret_response, query_spec, response_valid};
use crate::record::{
    augment_row, augmented_row, bool_token, decode_input_row, field_count, header_row, header_spec,
    row_field, MalformedRecord,
};
use crate::split::{
    lemma_split_first_field, line_clean, lines_of, push_all, split_bytes, strip_cr, LF,
};

verus! {

/// How many data rows a run processes: the limit, or the whole file if it
/// is shorter.
pub open spec fn processed_count(n_rows: int, limit: int) -> int {
    if limit <= n_rows {
        limit
    } else {
        n_rows
    }
}

/// Every row that the run would process has the declared five columns.
pub open spec fn rows_decodable(rows: Seq<Vec<u8>>, m: int) -> bool {
    forall|i: int| 0 <= i < m ==> field_count(rows[i]@) == 5
}

/// The verdict for the record at index `i`: the response body at the same
/// index confirms the address; a missing body is a failed check.
pub open spec fn verdict_of(bodies: Seq<Vec<u8>>, i: int) -> bool {
    0 <= i < bodies.len() && response_valid(bodies[i]@)
}

/// Row `j` is the first row, within the processed range `m`, whose column
/// count does not match.
pub open spec fn first_undecodable(rows: Seq<Vec<u8>>, j: int, m: int) -> bool {
    0 <= j < m && field_count(rows[j]@) != 5 && (forall|i: int|
        0 <= i < j ==> field_count(rows[i]@) == 5)
}

/// What a completed run emits: exactly the processed rows, in input
/// order, each one verbatim plus its verdict column.
pub open spec fn pipeline_output(
    rows: Seq<Vec<u8>>,
    bodies: Seq<Vec<u8>>,
    limit: int,
    out: Seq<Vec<u8>>,
) -> bool {
    out.len() == processed_count(rows.len() as int, limit) && (forall|i: int|
        0 <= i < out.len() ==> out[i]@ == augmented_row(rows[i]@, verdict_of(bodies, i)))
}

/// The queries a run issues: one per processed row, in input order, each
/// built from that row's address, postal code and city fields.
pub open spec fn planned_queries(rows: Seq<Vec<u8>>, limit: int, qs: Seq<Vec<u8>>) -> bool {
    qs.len() == processed_count(rows.len() as int, limit) && (forall|i: int|
        0 <= i < qs.len() ==> qs[i]@ == query_spec(
            row_field(rows[i]@, 1),
            row_field(rows[i]@, 2),
            row_field(rows[i]@, 3),
        ))
}

/// Builds the lookup query of every row the run will process, in input
/// order: exactly `min(limit, rows)` of them. A row of the wrong shape
/// within that range aborts the planning at the first such row, before
/// any query for a later row exists.
pub fn plan_queries(rows: &Vec<Vec<u8>>, limit: usize) -> (r: Result<Vec<Vec<u8>>, MalformedRecord>)
    ensures
        (match r {
            Ok(qs) => rows_decodable(rows@, processed_count(rows@.len() as int, limit as int))
                && planned_queries(rows@, limit as int, qs@),
            Err(e) => exists|j: int|
                first_undecodable(rows@, j, processed_count(rows@.len() as int, limit as int)) && (
                e.columns as int) == field_count(rows@[j]@),
        }),
        (r is Err) <==> !rows_decodable(rows@, processed_count(rows@.len() as int, limit as int)),
{
    let m = if limit <= rows.len() {
        limit
    } else {
        rows.len()
    };
    let mut qs: Vec<Vec<u8>> = Vec::new();
    let mut i: usize = 0;
    while i < m
        invariant
            i <= m,
            m == processed_count(rows@.len() as int, limit as int),
            m <= rows@.len(),
            qs@.len() == i,
            forall|k: int| 0 <= k < i ==> field_count(rows@[k]@) == 5,
            forall|k: int|
                0 <= k < i ==> qs@[k]@ == query_spec(
                    row_field(rows@[k]@, 1),
                    row_field(rows@[k]@, 2),
                    row_field(rows@[k]@, 3),
                ),
        decreases m - i,
    {
        match decode_input_row(&rows[i]) {
            Ok(rec) => {
                let q = build_query(&rec);
                qs.push(q);
            },
            Err(e) => {
                proof {
                    assert(first_undecodable(
                        rows@,
                        i as int,
                        processed_count(rows@.len() as int, limit as int),
                    ));
                }
                return Err(e);
            },
        }
        i = i + 1;
    }
    Ok(qs)
}

/// Runs the whole pipeline over the data rows: processes exactly
/// `min(limit, rows)` rows in input order, rendering each as itself plus
/// its verdict; aborts at the first row of the wrong shape within that
/// range, emitting nothing. A row past the limit is never examined.
pub fn run_pipeline(rows: &Vec<Vec<u8>>, limit: usize, bodies: &Vec<Vec<u8>>) -> (r: Result<
    Vec<Vec<u8>>,
    MalformedRecord,
>)
    ensures
        (match r {
            Ok(out) => rows_decodable(rows@, processed_count(rows@.len() as int, limit as int))
                && pipeline_output(rows@, bodies@, limit as int, out@),
            Err(e) => exists|j: int|
                first_undecodable(rows@, j, processed_count(rows@.len() as int, limit as int)) && (
                e.columns as int) == field_count(rows@[j]@),
        }),
        (r is Err) <==> !rows_decodable(rows@, processed_count(rows@.len() as int, limit as int)),
{
    let m = if limit <= rows.len() {
        limit
    } else {
        rows.len()
    };
    let mut out: Vec<Vec<u8>> = Vec::new();
    let mut i: usize = 0;
    while i < m
        invariant
            i <= m,
            m == processed_count(rows@.len() as int, limit as int),
            m <= rows@.len(),
            out@.len() == i,
            forall|k: int| 0 <= k < i ==> field_count(rows@[k]@) == 5,
            forall|k: int| 0 <= k < i ==> out@[k]@ == augmented_row(rows@[k]@, verdict_of(bodies@, k)),
        decreases m - i,
    {
        match decode_input_row(&rows[i]) {
            Ok(_rec) => {
                let valid = if i < bodies.len() {
                    interpret_response(&bodies[i])
                } else {
                    false
                };
                let row_out = augment_row(&rows[i], valid);
                out.push(row_out);
            },
            Err(e) => {
                proof {
                    assert(first_undecodable(
                        rows@,
                        i as int,
                        processed_count(rows@.len() as int, limit as int),
                    ));
                }
                return Err(e);
            },
        }
        i = i + 1;
    }
    Ok(out)
}

/// Every emitted row keeps the five input fields verbatim, in order, and
/// carries the verdict token as its one extra field.
pub proof fn lemma_pipeline_fields_verbatim(
    rows: Seq<Vec<u8>>,
    bodies: Seq<Vec<u8>>,
    limit: int,
    out: Seq<Vec<u8>>,
)
    requires
        pipeline_output(rows, bodies, limit, out),
        rows_decodable(rows, processed_count(rows.len() as int, limit)),
    ensures
        forall|i: int|
            0 <= i < out.len() ==> field_count(out[i]@) == 6 && (forall|j: int|
                0 <= j < 5 ==> row_field(out[i]@, j) == row_field(rows[i]@, j)) && row_field(
                out[i]@,
                5,
            ) == bool_token(verdict_of(bodies, i)),
{
    assert forall|i: int| 0 <= i < out.len() implies field_count(out[i]@) == 6 && (forall|j: int|
        0 <= j < 5 ==> row_field(out[i]@, j) == row_field(rows[i]@, j)) && row_field(out[i]@, 5)
        == bool_token(verdict_of(bodies, i)) by {
        crate::record::lemma_augmented_row_fields(rows[i]@, verdict_of(bodies, i));
        assert(field_count(rows[i]@) == 5);
    }
}

/// The emitted rows from index `i` on, each preceded by a line feed.
pub open spec fn rendered_rows(rows: Seq<Vec<u8>>, i: int) -> Seq<u8>
    decreases rows.len() - i,
{
    if i < 0 || i >= rows.len() {
        Seq::empty()
    } else {
        seq![LF] + rows[i]@ + rendered_rows(rows, i + 1)
    }
}

/// The whole output stream: the header row, every emitted row on a line
/// of its own, and a final line feed.
pub open spec fn rendered_output(rows: Seq<Vec<u8>>) -> Seq<u8> {
    header_spec() + rendered_rows(rows, 0) + seq![LF]
}

/// Assembles the output stream from the emitted rows, exactly as
/// `rendered_output` states it.
pub fn render_output(rows: &Vec<Vec<u8>>) -> (out: Vec<u8>)
    ensures
        out@ == rendered_output(rows@),
{
    let mut out = header_row();
    let mut i: usize = 0;
    while i < rows.len()
        invariant
            i <= rows@.len(),
            out@ + rendered_rows(rows@, i as int) == header_spec() + rendered_rows(rows@, 0),
        decreases rows@.len() - i,
    {
        out.push(LF);
        push_all(&mut out, &rows[i]);
        proof {
            assert(rendered_rows(rows@, i as int) == seq![LF] + rows@[i as int]@ + rendered_rows(
                rows@,
                i as int + 1,
            ));
            assert(out@ + rendered_rows(rows@, i as int + 1) =~= header_spec() + rendered_rows(
                rows@,
                0,
            ));
        }
        i = i + 1;
    }
    out.push(LF);
    proof {
        assert(out@ =~= rendered_output(rows@));
    }
    out
}

/// A completed run's rows are all clean lines whenever the input rows
/// hold no line feed — as rows read back from a stream never do.
pub proof fn lemma_pipeline_rows_line_clean(
    rows: Seq<Vec<u8>>,
    bodies: Seq<Vec<u8>>,
    limit: int,
    out: Seq<Vec<u8>>,
)
    requires
        pipeline_output(rows, bodies, limit, out),
        forall|i: int, j: int|
            0 <= i < rows.len() && 0 <= j < rows[i]@.len() ==> rows[i]@[j] != LF,
    ensures
        forall|i: int| 0 <= i < out.len() ==> line_clean(out[i]@),
{
    assert forall|i: int| 0 <= i < out.len() implies line_clean(out[i]@) by {
        assert(forall|j: int| 0 <= j < rows[i]@.len() ==> rows[i]@[j] != LF);
        crate::record::lemma_augmented_row_line_clean(rows[i]@, verdict_of(bodies, i));
    }
}

/// The split of the stream past its first line feed: every remaining
/// row, then the empty field after the final line feed.
proof fn lemma_split_rendered_tail(rows: Seq<Vec<u8>>, i: int)
    requires
        0 <= i <= rows.len(),
        forall|k: int| 0 <= k < rows.len() ==> line_clean(rows[k]@),
    ensures
        split_bytes((rendered_rows(rows, i) + seq![LF]).skip(1), LF) == Seq::new(
            (rows.len() - i) as nat,
            |k: int| rows[i + k]@,
        ) + seq![Seq::<u8>::empty()],
    decreases rows.len() - i,
{
    if i == rows.len() {
        assert(rendered_rows(rows, i) + seq![LF] =~= seq![LF]);
        assert((seq![LF]).skip(1) =~= Seq::<u8>::empty());
        assert(split_bytes(Seq::<u8>::empty(), LF) =~~= Seq::new(
            0,
            |k: int| rows[i + k]@,
        ) + seq![Seq::<u8>::empty()]);
    } else {
        lemma_split_rendered_tail(rows, i + 1);
        let tail_next = (rendered_rows(rows, i + 1) + seq![LF]).skip(1);
        assert((rendered_rows(rows, i + 1) + seq![LF])[0] == LF);
        assert(rendered_rows(rows, i + 1) + seq![LF] =~= seq![LF] + tail_next);
        assert((rendered_rows(rows, i) + seq![LF]).skip(1) =~= rows[i]@ + seq![LF] + tail_next);
        lemma_split_first_field(rows[i]@, tail_next, LF);
        assert(split_bytes((rendered_rows(rows, i) + seq![LF]).skip(1), LF) =~~= Seq::new(
            (rows.len() - i) as nat,
            |k: int| rows[i + k]@,
        ) + seq![Seq::<u8>::empty()]);
    }
}

/// Reading the rendered stream back yields the header line and then
/// exactly the emitted rows, in order: what was written can be read.
pub proof fn lemma_rendered_output_parses_back(rows: Seq<Vec<u8>>)
    requires
        forall|k: int| 0 <= k < rows.len() ==> line_clean(rows[k]@),
    ensures
        lines_of(rendered_output(rows)) == seq![header_spec()] + Seq::new(
            rows.len(),
            |k: int| rows[k]@,
        ),
{
    crate::record::lemma_header_line_clean();
    lemma_split_rendered_tail(rows, 0);
    let stream = rendered_output(rows);
    let tail0 = (rendered_rows(rows, 0) + seq![LF]).skip(1);
    assert((rendered_rows(rows, 0) + seq![LF])[0] == LF);
    assert(rendered_rows(rows, 0) + seq![LF] =~= seq![LF] + tail0);
    assert(stream =~= header_spec() + seq![LF] + tail0);
    lemma_split_first_field(header_spec(), tail0, LF);
    let expected = seq![header_spec()] + Seq::new(rows.len(), |k: int| rows[k]@);
    let raw = split_bytes(stream, LF);
    assert(raw =~~= expected + seq![Seq::<u8>::empty()]);
    assert(raw[raw.len() - 1].len() == 0);
    assert(raw.drop_last() =~~= expected);
    assert forall|k: int| 0 <= k < expected.len() implies strip_cr(expected[k]) == expected[k] by {
        if k == 0 {
            assert(expected[k][expected[k].len() - 1] == 101u8);
        } else {
            assert(line_clean(rows[k - 1]@));
        }
    }
    assert(lines_of(stream) =~~= expected);
}

/// The run is a function of its inputs: two completed runs over the same
/// rows, limit and response bodies emit byte-identical output.
pub proof fn lemma_pipeline_deterministic(
    rows: Seq<Vec<u8>>,
    bodies: Seq<Vec<u8>>,
    limit: int,
    out1: Seq<Vec<u8>>,
    out2: Seq<Vec<u8>>,
)
    requires
        pipeline_output(rows, bodies, limit, out1),
        pipeline_output(rows, bodies, limit, out2),
    ensures
        out1.len() == out2.len(),
        forall|i: int| 0 <= i < out1.len() ==> out1[i]@ == out2[i]@,
{
}

} // verus!
