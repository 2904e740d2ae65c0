use config_compiler::vars::substitute_variables;

fn env(entries: &[(&str, &str)]) -> Vec<(Vec<u8>, Vec<u8>)> {
    entries
        .iter()
        .map(|(k, v)| (k.as_bytes().to_vec(), v.as_bytes().to_vec()))
        .collect()
}

fn run(text: &str, entries: &[(&str, &str)]) -> (String, Vec<String>) {
    let (out, missing) = substitute_variables(&text.as_bytes().to_vec(), &env(entries));
    (
        String::from_utf8(out).expect("utf8"),
        missing
            .into_iter()
            .map(|m| String::from_utf8(m).expect("utf8"))
            .collect(),
    )
}

#[test]
fn substitutes_braced_variable() {
    let (out, missing) = run("host = \"${HOST}\"", &[("HOST", "example")]);
    assert_eq!(out, "host = \"example\"");
    assert_eq!(missing.len(), 0);
}

#[test]
fn default_used_when_undefined() {
    let (out, missing) = run("${PORT:-9000}", &[]);
    assert_eq!(out, "9000");
    assert_eq!(missing.len(), 0);
    let (out2, missing2) = run("${PORT-8000}", &[]);
    assert_eq!(out2, "8000");
    assert_eq!(missing2.len(), 0);
}

#[test]
fn value_wins_over_default() {
    let (out, _) = run("${PORT:-9000}", &[("PORT", "1234")]);
    assert_eq!(out, "1234");
}

#[test]
fn double_dollar_is_literal() {
    let (out, missing) = run("cost: $$5 and ${X}", &[("X", "y")]);
    assert_eq!(out, "cost: $5 and y");
    assert_eq!(missing.len(), 0);
}

#[test]
fn missing_variable_collected() {
    let (out, missing) = run("a ${NOPE} b", &[]);
    assert_eq!(out, "a  b");
    assert_eq!(missing, vec!["NOPE"]);
}

#[test]
fn substitution_is_single_pass() {
    // The substituted value is not expanded again.
    let (out, missing) = run("${A}", &[("A", "${B}"), ("B", "inner")]);
    assert_eq!(out, "${B}");
    assert_eq!(missing.len(), 0);
}
