use rustible::modules::facts::{build_batch_script, parse_batch_output, read_file_command};

fn answer<'a>(parsed: &'a [(String, Option<String>)], command: &str) -> &'a Option<String> {
    &parsed.iter().find(|(c, _)| c == command).unwrap().1
}

#[test]
fn test_build_batch_script_wraps_each_command() {
    let script = build_batch_script("nonce", &["uname -s", "id -u"]);
    assert_eq!(
        script,
        "echo RUSTIBLE_nonce_0_BEGIN\nuname -s\necho RUSTIBLE_nonce_0_END\n\
         echo RUSTIBLE_nonce_1_BEGIN\nid -u\necho RUSTIBLE_nonce_1_END\n"
    );
}

#[test]
fn test_parse_batch_output_splits_results() {
    let output = "RUSTIBLE_n_0_BEGIN\nLinux\nRUSTIBLE_n_0_END\n\
                  RUSTIBLE_n_1_BEGIN\n\nRUSTIBLE_n_1_END\n";
    let parsed = parse_batch_output("n", output, &["uname -s", "missing"]).unwrap();
    assert_eq!(answer(&parsed, "uname -s"), &Some("Linux".to_string()));
    assert_eq!(
        answer(&parsed, "missing"),
        &None,
        "a command with no output is reported as absent"
    );
}

#[test]
fn test_parse_batch_output_keeps_multiline_content() {
    let output = "RUSTIBLE_n_0_BEGIN\nfirst\nsecond\nRUSTIBLE_n_0_END\n";
    let parsed = parse_batch_output("n", output, &["cat file"]).unwrap();
    assert_eq!(answer(&parsed, "cat file"), &Some("first\nsecond".to_string()));
}

#[test]
fn test_parse_batch_output_rejects_truncated_output() {
    let output = "RUSTIBLE_n_0_BEGIN\nLinux\n";
    assert!(parse_batch_output("n", output, &["uname -s"]).is_none());
}

#[test]
fn test_parse_batch_output_rejects_unmarked_output() {
    assert!(parse_batch_output("n", "command not found\n", &["uname -s"]).is_none());
}

#[test]
fn parse_batch_output_reads_its_own_script_run() {
    let script = build_batch_script("k", &["a", "b"]);
    assert!(script.contains("RUSTIBLE_k_1_END"));
    let output = "RUSTIBLE_k_0_BEGIN\r\n  one  \r\nRUSTIBLE_k_0_END\r\nnoise\nRUSTIBLE_k_1_BEGIN\ntwo\nRUSTIBLE_k_1_END";
    let parsed = parse_batch_output("k", output, &["a", "b"]).unwrap();
    assert_eq!(parsed.len(), 2);
    assert_eq!(answer(&parsed, "a"), &Some("one".to_string()));
    assert_eq!(answer(&parsed, "b"), &Some("two".to_string()));
}

#[test]
fn parse_batch_output_rejects_mismatched_or_unknown_sections() {
    let crossed = "RUSTIBLE_n_0_BEGIN\nx\nRUSTIBLE_n_1_END\n";
    assert!(parse_batch_output("n", crossed, &["a", "b"]).is_none());
    let beyond = "RUSTIBLE_n_5_BEGIN\nx\nRUSTIBLE_n_5_END\n";
    assert!(parse_batch_output("n", beyond, &["a"]).is_none());
    let bad_index = "RUSTIBLE_n_x_BEGIN\n";
    assert!(parse_batch_output("n", bad_index, &["a"]).is_none());
    let duplicate = "RUSTIBLE_n_0_BEGIN\nx\nRUSTIBLE_n_0_END\nRUSTIBLE_n_1_BEGIN\ny\nRUSTIBLE_n_1_END\n";
    assert!(parse_batch_output("n", duplicate, &["a", "a"]).is_none());
}

#[test]
fn read_file_command_uses_cat() {
    assert_eq!(read_file_command("/etc/os-release"), "cat /etc/os-release");
}

#[test]
fn batch_output_reads_back_in_order() {
    let commands = ["uname -s", "hostname -f", "whoami"];
    let script = build_batch_script("n1", &commands);
    assert!(script.starts_with("echo RUSTIBLE_n1_0_BEGIN\nuname -s\necho RUSTIBLE_n1_0_END\n"));
    let output = "RUSTIBLE_n1_0_BEGIN\nLinux\nRUSTIBLE_n1_0_END\nRUSTIBLE_n1_1_BEGIN\n  web1  \n\nRUSTIBLE_n1_1_END\nRUSTIBLE_n1_2_BEGIN\nRUSTIBLE_n1_2_END\n";
    let answers = parse_batch_output("n1", output, &commands).unwrap();
    assert_eq!(
        answers,
        vec![
            ("uname -s".to_string(), Some("Linux".to_string())),
            ("hostname -f".to_string(), Some("web1".to_string())),
            ("whoami".to_string(), None),
        ]
    );
}

#[test]
fn batch_output_with_repeated_command_is_refused() {
    let commands = ["uname -s", "uname -s"];
    let output = "RUSTIBLE_n2_0_BEGIN\nLinux\nRUSTIBLE_n2_0_END\nRUSTIBLE_n2_1_BEGIN\nLinux\nRUSTIBLE_n2_1_END\n";
    assert!(parse_batch_output("n2", output, &commands).is_none());
}
