use adresse_check::driver::{plan_queries, render_output, run_pipeline};
use adresse_check::split::split_lines;

fn rows5() -> Vec<Vec<u8>> {
    vec![
        b"A\t1 Rue X\t75001\tParis\t01".to_vec(),
        b"B\t2 Rue Y\t75002\tParis\t02".to_vec(),
        b"C\t3 Rue Z\t75003\tParis\t03".to_vec(),
        b"D\t4 Rue W\t75004\tParis\t04".to_vec(),
        b"E\t5 Rue V\t75005\tParis\t05".to_vec(),
    ]
}

fn body(score: &str) -> Vec<u8> {
    format!("{{\"features\":[{{\"properties\":{{\"score\":{}}}}}]}}", score).into_bytes()
}

#[test]
fn limit_truncates_output() {
    let rows = rows5();
    let bodies = vec![body("0.9"), body("0.9")];
    let out = run_pipeline(&rows, 2, &bodies).unwrap();
    assert_eq!(out.len(), 2);
    assert_eq!(out[0], b"A\t1 Rue X\t75001\tParis\t01\ttrue".to_vec());
    assert_eq!(out[1], b"B\t2 Rue Y\t75002\tParis\t02\ttrue".to_vec());
}

#[test]
fn two_of_five_rows_means_two_queries() {
    let rows = rows5();
    let qs = plan_queries(&rows, 2).unwrap();
    assert_eq!(qs.len(), 2);
    assert_eq!(qs[0], b"1 Rue X, 75001 Paris".to_vec());
    assert_eq!(qs[1], b"2 Rue Y, 75002 Paris".to_vec());
    let bodies = vec![body("0.9"), body("0.1")];
    let out = run_pipeline(&rows, 2, &bodies).unwrap();
    assert_eq!(out.len(), 2);
}

#[test]
fn limit_zero_emits_nothing() {
    let rows = rows5();
    let out = run_pipeline(&rows, 0, &vec![]).unwrap();
    assert_eq!(out.len(), 0);
}

#[test]
fn limit_beyond_file_processes_all() {
    let rows = rows5();
    let bodies = vec![body("0.9"); 5];
    let out = run_pipeline(&rows, 100, &bodies).unwrap();
    assert_eq!(out.len(), 5);
}

#[test]
fn rows_stay_in_input_order() {
    let rows = rows5();
    let bodies = vec![body("0.9"), body("0.1"), body("0.8")];
    let out = run_pipeline(&rows, 3, &bodies).unwrap();
    assert_eq!(out[0][0], b'A');
    assert_eq!(out[1][0], b'B');
    assert_eq!(out[2][0], b'C');
    assert_eq!(out[1], b"B\t2 Rue Y\t75002\tParis\t02\tfalse".to_vec());
}

#[test]
fn example_row_high_score() {
    let rows = vec![b"Jean Dupont\t1 Rue de la Paix\t75002\tParis\t0600000000".to_vec()];
    let out = run_pipeline(&rows, 1, &vec![body("0.95")]).unwrap();
    assert_eq!(out[0], b"Jean Dupont\t1 Rue de la Paix\t75002\tParis\t0600000000\ttrue".to_vec());
}

#[test]
fn example_row_low_score() {
    let rows = vec![b"Jean Dupont\t1 Rue de la Paix\t75002\tParis\t0600000000".to_vec()];
    let out = run_pipeline(&rows, 1, &vec![body("0.4")]).unwrap();
    assert_eq!(out[0], b"Jean Dupont\t1 Rue de la Paix\t75002\tParis\t0600000000\tfalse".to_vec());
}

#[test]
fn example_row_timeout() {
    // A request that never came back has no body; the verdict is negative.
    let rows = vec![b"Jean Dupont\t1 Rue de la Paix\t75002\tParis\t0600000000".to_vec()];
    let out = run_pipeline(&rows, 1, &vec![]).unwrap();
    assert_eq!(out[0], b"Jean Dupont\t1 Rue de la Paix\t75002\tParis\t0600000000\tfalse".to_vec());
}

#[test]
fn malformed_row_aborts_run() {
    let mut rows = rows5();
    rows[2] = b"C\t3 Rue Z\t75003\tParis".to_vec();
    let e = run_pipeline(&rows, 5, &vec![body("0.9"); 5]).unwrap_err();
    assert_eq!(e.columns, 4);
    let e2 = plan_queries(&rows, 5).unwrap_err();
    assert_eq!(e2.columns, 4);
}

#[test]
fn malformed_row_past_limit_is_never_read() {
    let mut rows = rows5();
    rows[4] = b"broken".to_vec();
    let out = run_pipeline(&rows, 4, &vec![body("0.9"); 4]).unwrap();
    assert_eq!(out.len(), 4);
    assert!(plan_queries(&rows, 4).is_ok());
}

#[test]
fn run_twice_is_byte_identical() {
    let rows = rows5();
    let bodies = vec![body("0.9"), body("0.1"), body("0.7")];
    let once = run_pipeline(&rows, 3, &bodies).unwrap();
    let twice = run_pipeline(&rows, 3, &bodies).unwrap();
    assert_eq!(once, twice);
    assert_eq!(render_output(&once), render_output(&twice));
}

#[test]
fn rendered_stream_shape() {
    let rows = vec![b"A\t1 Rue X\t75001\tParis\t01".to_vec()];
    let out = run_pipeline(&rows, 1, &vec![body("0.9")]).unwrap();
    assert_eq!(
        render_output(&out),
        b"nom\tadresse\tcp\tville\tcontact\tadresse_valide\nA\t1 Rue X\t75001\tParis\t01\ttrue\n"
            .to_vec()
    );
}

#[test]
fn rendered_stream_reads_back() {
    let rows = rows5();
    let bodies = vec![body("0.9"), body("0.2")];
    let out = run_pipeline(&rows, 2, &bodies).unwrap();
    let stream = render_output(&out);
    let lines = split_lines(&stream);
    assert_eq!(lines.len(), 3);
    assert_eq!(lines[0], b"nom\tadresse\tcp\tville\tcontact\tadresse_valide".to_vec());
    assert_eq!(lines[1], out[0]);
    assert_eq!(lines[2], out[1]);
}

#[test]
fn empty_run_renders_header_only() {
    let out = run_pipeline(&vec![], 10, &vec![]).unwrap();
    assert_eq!(
        render_output(&out),
        b"nom\tadresse\tcp\tville\tcontact\tadresse_valide\n".to_vec()
    );
}
