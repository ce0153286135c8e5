use adresse_check::output_name::{generer_nom_sortie, valid_input_name};
use adresse_check::progress::ProgressTally;
use adresse_check::split::split_lines;

fn derive(p: &str) -> String {
    String::from_utf8(generer_nom_sortie(&p.as_bytes().to_vec())).unwrap()
}

#[test]
fn suffix_before_extension() {
    assert_eq!(derive("fichier.txt"), "fichier_chk.txt");
}

#[test]
fn directory_is_kept() {
    assert_eq!(derive("dossier/donnees.tsv"), "dossier/donnees_chk.tsv");
    assert_eq!(derive("/a/b/c.csv"), "/a/b/c_chk.csv");
}

#[test]
fn no_extension_stays_extensionless() {
    assert_eq!(derive("donnees"), "donnees_chk");
}

#[test]
fn hidden_file_has_no_extension() {
    assert_eq!(derive(".donnees"), ".donnees_chk");
}

#[test]
fn last_dot_separates() {
    assert_eq!(derive("a.b.c"), "a.b_chk.c");
}

#[test]
fn name_validity() {
    assert!(valid_input_name(&b"x.txt".to_vec()));
    assert!(valid_input_name(&b"a/b".to_vec()));
    assert!(!valid_input_name(&b"".to_vec()));
    assert!(!valid_input_name(&b"a/".to_vec()));
    assert!(!valid_input_name(&b".".to_vec()));
    assert!(!valid_input_name(&b"a/..".to_vec()));
}

#[test]
fn lines_split_and_strip() {
    let data = b"nom\tville\r\na\tb\nc\td\n".to_vec();
    let lines = split_lines(&data);
    assert_eq!(lines.len(), 3);
    assert_eq!(lines[0], b"nom\tville".to_vec());
    assert_eq!(lines[1], b"a\tb".to_vec());
    assert_eq!(lines[2], b"c\td".to_vec());
}

#[test]
fn lines_without_trailing_newline() {
    let data = b"x\ny".to_vec();
    let lines = split_lines(&data);
    assert_eq!(lines.len(), 2);
    assert_eq!(lines[1], b"y".to_vec());
}

#[test]
fn empty_stream_has_no_lines() {
    assert_eq!(split_lines(&b"".to_vec()).len(), 0);
}

#[test]
fn tally_counts_to_total() {
    let mut t = ProgressTally::new(2);
    assert_eq!(t.remaining(), 2);
    assert!(!t.is_complete());
    t.advance();
    assert_eq!(t.remaining(), 1);
    t.advance();
    assert_eq!(t.remaining(), 0);
    assert!(t.is_complete());
}
