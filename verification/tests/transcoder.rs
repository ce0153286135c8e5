use adresse_check::record::{
    augment_row, decode_input_row, encode_output_row, header_row, make_output_record,
};

fn row(s: &str) -> Vec<u8> {
    s.as_bytes().to_vec()
}

#[test]
fn decode_five_columns() {
    let r = row("Jean Dupont\t1 Rue de la Paix\t75002\tParis\t0600000000");
    let rec = decode_input_row(&r).unwrap();
    assert_eq!(rec.nom, b"Jean Dupont".to_vec());
    assert_eq!(rec.adresse, b"1 Rue de la Paix".to_vec());
    assert_eq!(rec.cp, b"75002".to_vec());
    assert_eq!(rec.ville, b"Paris".to_vec());
    assert_eq!(rec.contact, b"0600000000".to_vec());
}

#[test]
fn decode_keeps_leading_zeros() {
    let r = row("A\tB\t01000\tC\tD");
    let rec = decode_input_row(&r).unwrap();
    assert_eq!(rec.cp, b"01000".to_vec());
}

#[test]
fn decode_missing_column_fails() {
    let r = row("Jean Dupont\t1 Rue de la Paix\t75002\tParis");
    let e = decode_input_row(&r).unwrap_err();
    assert_eq!(e.columns, 4);
}

#[test]
fn decode_extra_column_fails() {
    let r = row("a\tb\tc\td\te\tf");
    let e = decode_input_row(&r).unwrap_err();
    assert_eq!(e.columns, 6);
}

#[test]
fn decode_empty_row_fails() {
    let r = row("");
    let e = decode_input_row(&r).unwrap_err();
    assert_eq!(e.columns, 1);
}

#[test]
fn decode_empty_fields_succeed() {
    let r = row("\t\t\t\t");
    let rec = decode_input_row(&r).unwrap();
    assert_eq!(rec.nom, b"".to_vec());
    assert_eq!(rec.contact, b"".to_vec());
}

#[test]
fn encode_renders_true_token() {
    let r = row("a\tb\tc\td\te");
    let rec = decode_input_row(&r).unwrap();
    let out = encode_output_row(&make_output_record(rec, true));
    assert_eq!(out, b"a\tb\tc\td\te\ttrue".to_vec());
}

#[test]
fn encode_renders_false_token() {
    let r = row("a\tb\tc\td\te");
    let rec = decode_input_row(&r).unwrap();
    let out = encode_output_row(&make_output_record(rec, false));
    assert_eq!(out, b"a\tb\tc\td\te\tfalse".to_vec());
}

#[test]
fn augment_matches_encode() {
    let r = row("x\ty y\tz\tw\tv");
    let rec = decode_input_row(&r).unwrap();
    assert_eq!(augment_row(&r, true), encode_output_row(&make_output_record(rec, true)));
}

#[test]
fn augment_keeps_row_verbatim() {
    let r = row(" a \tb\t  \td\te");
    assert_eq!(augment_row(&r, false), b" a \tb\t  \td\te\tfalse".to_vec());
}

#[test]
fn header_names_in_order() {
    assert_eq!(header_row(), b"nom\tadresse\tcp\tville\tcontact\tadresse_valide".to_vec());
}
