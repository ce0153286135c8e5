//! The record transcoder: one tab-separated row of the address table in,
//! one augmented row out.

use vstd::prelude::*;
use crate::split::{
    split_bytes, split_on, clone_bytes, push_all, join_with, lemma_join_of_split,
    lemma_split_append_field, line_clean, LF,
};

verus! {

/// The column separator of the input and output streams.
pub const TAB: u8 = 9;

/// How many columns an input row must have.
pub const INPUT_COLUMNS: usize = 5;

/// The number of tab-separated fields of `row`.
pub open spec fn field_count(row: Seq<u8>) -> int {
    split_bytes(row, TAB).len() as int
}

/// Field `i` of `row`, counting tab-separated fields from zero.
pub open spec fn row_field(row: Seq<u8>, i: int) -> Seq<u8> {
    split_bytes(row, TAB)[i]
}

/// One source row: the five columns of the address table, in file order.
#[derive(Debug)]
pub struct InputRecord {
    pub nom: Vec<u8>,
    pub adresse: Vec<u8>,
    pub cp: Vec<u8>,
    pub ville: Vec<u8>,
    pub contact: Vec<u8>,
}

/// The five source columns plus the verification verdict.
#[derive(Debug)]
pub struct OutputRecord {
    pub nom: Vec<u8>,
    pub adresse: Vec<u8>,
    pub cp: Vec<u8>,
    pub ville: Vec<u8>,
    pub contact: Vec<u8>,
    pub adresse_valide: bool,
}

/// A row whose column count does not match the declared shape.
#[derive(Debug, Clone, Copy, PartialEq, Eq, Structural)]
pub struct MalformedRecord {
    /// How many tab-separated columns the offending row actually has.
    pub columns: usize,
}

/// The literal token a verdict is rendered as.
pub open spec fn bool_token(valid: bool) -> Seq<u8> {
    if valid {
        seq![116u8, 114u8, 117u8, 101u8]  // "true"
    } else {
        seq![102u8, 97u8, 108u8, 115u8, 101u8]  // "false"
    }
}

/// The row as it is emitted: the input row verbatim, one tab, the verdict token.
pub open spec fn augmented_row(row: Seq<u8>, valid: bool) -> Seq<u8> {
    row + seq![TAB] + bool_token(valid)
}

/// Decodes one data row. Succeeds exactly when the row has five
/// tab-separated columns, and then yields them verbatim and in order;
/// otherwise reports how many columns the row has.
pub fn decode_input_row(row: &Vec<u8>) -> (r: Result<InputRecord, MalformedRecord>)
    ensures
        (match r {
            Ok(rec) => field_count(row@) == 5 && rec.nom@ == row_field(row@, 0) && rec.adresse@
                == row_field(row@, 1) && rec.cp@ == row_field(row@, 2) && rec.ville@ == row_field(
                row@,
                3,
            ) && rec.contact@ == row_field(row@, 4),
            Err(e) => field_count(row@) != 5 && e.columns as int == field_count(row@),
        }),
{
    let mut parts = split_on(row, TAB);
    if parts.len() == INPUT_COLUMNS {
        let contact = parts.pop().unwrap();
        let ville = parts.pop().unwrap();
        let cp = parts.pop().unwrap();
        let adresse = parts.pop().unwrap();
        let nom = parts.pop().unwrap();
        Ok(InputRecord { nom, adresse, cp, ville, contact })
    } else {
        Err(MalformedRecord { columns: parts.len() })
    }
}

/// Joins an input record with its verdict; the five fields are copied
/// verbatim, in the declared column order.
pub fn make_output_record(rec: InputRecord, adresse_valide: bool) -> (out: OutputRecord)
    ensures
        out.nom@ == rec.nom@,
        out.adresse@ == rec.adresse@,
        out.cp@ == rec.cp@,
        out.ville@ == rec.ville@,
        out.contact@ == rec.contact@,
        out.adresse_valide == adresse_valide,
{
    OutputRecord {
        nom: rec.nom,
        adresse: rec.adresse,
        cp: rec.cp,
        ville: rec.ville,
        contact: rec.contact,
        adresse_valide,
    }
}

/// Pushes the verdict token onto `out`.
fn push_token(out: &mut Vec<u8>, valid: bool)
    ensures
        final(out)@ == old(out)@ + bool_token(valid),
{
    if valid {
        out.push(116);
        out.push(114);
        out.push(117);
        out.push(101);
    } else {
        out.push(102);
        out.push(97);
        out.push(108);
        out.push(115);
        out.push(101);
    }
    proof {
        assert(out@ =~= old(out)@ + bool_token(valid));
    }
}

/// Encodes an output record as one tab-separated row in the fixed column
/// order, the verdict rendered as a literal `true`/`false` token.
pub fn encode_output_row(rec: &OutputRecord) -> (out: Vec<u8>)
    ensures
        out@ == rec.nom@ + seq![TAB] + rec.adresse@ + seq![TAB] + rec.cp@ + seq![TAB] + rec.ville@
            + seq![TAB] + rec.contact@ + seq![TAB] + bool_token(rec.adresse_valide),
{
    let mut out = clone_bytes(&rec.nom);
    out.push(TAB);
    push_all(&mut out, &rec.adresse);
    out.push(TAB);
    push_all(&mut out, &rec.cp);
    out.push(TAB);
    push_all(&mut out, &rec.ville);
    out.push(TAB);
    push_all(&mut out, &rec.contact);
    out.push(TAB);
    push_token(&mut out, rec.adresse_valide);
    proof {
        assert(out@ =~= rec.nom@ + seq![TAB] + rec.adresse@ + seq![TAB] + rec.cp@ + seq![TAB]
            + rec.ville@ + seq![TAB] + rec.contact@ + seq![TAB] + bool_token(rec.adresse_valide));
    }
    out
}

/// Appends the verdict column to a row, leaving the row bytes untouched.
pub fn augment_row(row: &Vec<u8>, valid: bool) -> (out: Vec<u8>)
    ensures
        out@ == augmented_row(row@, valid),
{
    let mut out = clone_bytes(row);
    out.push(TAB);
    push_token(&mut out, valid);
    proof {
        assert(out@ =~= augmented_row(row@, valid));
    }
    out
}

/// The verdict token never holds a tab, so augmenting a row adds exactly
/// one field: the token itself, after the untouched original fields.
pub proof fn lemma_augmented_row_fields(row: Seq<u8>, valid: bool)
    ensures
        split_bytes(augmented_row(row, valid), TAB) == split_bytes(row, TAB) + seq![
            bool_token(valid),
        ],
        field_count(augmented_row(row, valid)) == field_count(row) + 1,
        forall|j: int|
            0 <= j < field_count(row) ==> row_field(augmented_row(row, valid), j) == row_field(
                row,
                j,
            ),
        row_field(augmented_row(row, valid), field_count(row)) == bool_token(valid),
{
    assert(forall|j: int| 0 <= j < bool_token(valid).len() ==> bool_token(valid)[j] != TAB);
    lemma_split_append_field(row, bool_token(valid), TAB);
}

/// Augmenting keeps a row fit to stand as one output line: no line feed
/// appears, and the row now ends in the verdict token's last letter.
pub proof fn lemma_augmented_row_line_clean(row: Seq<u8>, valid: bool)
    requires
        forall|j: int| 0 <= j < row.len() ==> row[j] != LF,
    ensures
        line_clean(augmented_row(row, valid)),
{
    let a = augmented_row(row, valid);
    assert(forall|j: int| 0 <= j < bool_token(valid).len() ==> bool_token(valid)[j] != LF);
    assert forall|j: int| 0 <= j < a.len() implies a[j] != LF by {
        if j < row.len() {
            assert(a[j] == row[j]);
        } else if j == row.len() {
            assert(a[j] == TAB);
        } else {
            assert(a[j] == bool_token(valid)[j - row.len() - 1]);
        }
    }
    assert(a[a.len() - 1] == 101u8);
}

/// Decoding and re-encoding reproduce the row: for a row of five
/// columns, the augmented row is exactly its own fields re-joined in
/// order, with the verdict as the last column. The driver's direct
/// append and the transcoder's encode-of-decode therefore agree.
pub proof fn lemma_transcoder_round_trip(row: Seq<u8>, valid: bool)
    requires
        field_count(row) == 5,
    ensures
        augmented_row(row, valid) == row_field(row, 0) + seq![TAB] + row_field(row, 1) + seq![TAB]
            + row_field(row, 2) + seq![TAB] + row_field(row, 3) + seq![TAB] + row_field(row, 4)
            + seq![TAB] + bool_token(valid),
{
    lemma_join_of_split(row, TAB);
    let parts = split_bytes(row, TAB);
    let p1 = parts.skip(1);
    let p2 = p1.skip(1);
    let p3 = p2.skip(1);
    let p4 = p3.skip(1);
    assert(p1[0] == parts[1] && p1[1] == parts[2] && p1[2] == parts[3] && p1[3] == parts[4]);
    assert(p2[0] == parts[2] && p2[1] == parts[3] && p2[2] == parts[4]);
    assert(p3[0] == parts[3] && p3[1] == parts[4]);
    assert(p4[0] == parts[4]);
    assert(join_with(parts, TAB) == parts[0] + seq![TAB] + join_with(p1, TAB));
    assert(join_with(p1, TAB) == parts[1] + seq![TAB] + join_with(p2, TAB));
    assert(join_with(p2, TAB) == parts[2] + seq![TAB] + join_with(p3, TAB));
    assert(join_with(p3, TAB) == parts[3] + seq![TAB] + join_with(p4, TAB));
    assert(join_with(p4, TAB) == parts[4]);
    assert(augmented_row(row, valid) =~= parts[0] + seq![TAB] + parts[1] + seq![TAB] + parts[2]
        + seq![TAB] + parts[3] + seq![TAB] + parts[4] + seq![TAB] + bool_token(valid));
}

/// The header of the output stream: the five input column names and the
/// verdict column, tab-separated.
pub open spec fn header_spec() -> Seq<u8> {
    spec_name_nom() + seq![TAB] + spec_name_adresse() + seq![TAB] + spec_name_cp() + seq![TAB]
        + spec_name_ville() + seq![TAB] + spec_name_contact() + seq![TAB] + spec_name_valide()
}

/// The column name `nom`.
pub open spec fn spec_name_nom() -> Seq<u8> {
    seq![110u8, 111u8, 109u8]
}

/// The column name `adresse`.
pub open spec fn spec_name_adresse() -> Seq<u8> {
    seq![97u8, 100u8, 114u8, 101u8, 115u8, 115u8, 101u8]
}

/// The column name `cp`.
pub open spec fn spec_name_cp() -> Seq<u8> {
    seq![99u8, 112u8]
}

/// The column name `ville`.
pub open spec fn spec_name_ville() -> Seq<u8> {
    seq![118u8, 105u8, 108u8, 108u8, 101u8]
}

/// The column name `contact`.
pub open spec fn spec_name_contact() -> Seq<u8> {
    seq![99u8, 111u8, 110u8, 116u8, 97u8, 99u8, 116u8]
}

/// The column name `adresse_valide`.
pub open spec fn spec_name_valide() -> Seq<u8> {
    seq![
        97u8,
        100u8,
        114u8,
        101u8,
        115u8,
        115u8,
        101u8,
        95u8,
        118u8,
        97u8,
        108u8,
        105u8,
        100u8,
        101u8,
    ]
}

/// Builds the output header row.
pub fn header_row() -> (out: Vec<u8>)
    ensures
        out@ == header_spec(),
{
    let mut out: Vec<u8> = Vec::new();
    out.push(110);
    out.push(111);
    out.push(109);
    out.push(TAB);
    push_adresse(&mut out);
    out.push(TAB);
    out.push(99);
    out.push(112);
    out.push(TAB);
    push_ville(&mut out);
    out.push(TAB);
    out.push(99);
    out.push(111);
    out.push(110);
    out.push(116);
    out.push(97);
    out.push(99);
    out.push(116);
    out.push(TAB);
    push_adresse(&mut out);
    out.push(95);
    out.push(118);
    out.push(97);
    out.push(108);
    out.push(105);
    out.push(100);
    out.push(101);
    proof {
        assert(out@ =~= header_spec());
    }
    out
}

/// The header is itself a clean line: no line feed, no trailing
/// carriage return.
pub proof fn lemma_header_line_clean()
    ensures
        line_clean(header_spec()),
{
    let h = header_spec();
    assert forall|j: int| 0 <= j < h.len() implies h[j] != LF by {
        assert(forall|t: int| 0 <= t < spec_name_nom().len() ==> spec_name_nom()[t] != LF);
        assert(forall|t: int| 0 <= t < spec_name_adresse().len() ==> spec_name_adresse()[t] != LF);
        assert(forall|t: int| 0 <= t < spec_name_cp().len() ==> spec_name_cp()[t] != LF);
        assert(forall|t: int| 0 <= t < spec_name_ville().len() ==> spec_name_ville()[t] != LF);
        assert(forall|t: int| 0 <= t < spec_name_contact().len() ==> spec_name_contact()[t] != LF);
        assert(forall|t: int| 0 <= t < spec_name_valide().len() ==> spec_name_valide()[t] != LF);
    }
    assert(h[h.len() - 1] == 101u8);
}

/// Pushes the bytes of `adresse`.
fn push_adresse(out: &mut Vec<u8>)
    ensures
        final(out)@ == old(out)@ + spec_name_adresse(),
{
    out.push(97);
    out.push(100);
    out.push(114);
    out.push(101);
    out.push(115);
    out.push(115);
    out.push(101);
    proof {
        assert(out@ =~= old(out)@ + spec_name_adresse());
    }
}

/// Pushes the bytes of `ville`.
fn push_ville(out: &mut Vec<u8>)
    ensures
        final(out)@ == old(out)@ + spec_name_ville(),
{
    out.push(118);
    out.push(105);
    out.push(108);
    out.push(108);
    out.push(101);
    proof {
        assert(out@ =~= old(out)@ + spec_name_ville());
    }
}

} // verus!
