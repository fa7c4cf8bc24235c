use fasb::lofo::{translate_info, trim_repr};

fn report(body: &[&str]) -> String {
    let mut s = String::from("header\n-----\nneurons\n");
    for l in body {
        s.push_str(l);
        s.push('\n');
    }
    s.push_str("***\ntrailer");
    s
}

#[test]
fn trim_repr_writes_connectives_in_ascii() {
    assert_eq!(trim_repr("\u{AC}(A \u{2227} B) \u{2228} C \u{2192} D"), "~(A&B)|C>>D");
    assert_eq!(trim_repr("plain"), "plain");
}

#[test]
fn translate_proposition() {
    let info = report(&["0 Proposition: A    TRUE (1.0, 1.0)", "params  alpha: 0.95"]);
    assert_eq!(
        translate_info(&info),
        Some("repr: A\nalpha:  0.95\nbias: 0.0\nstate:\n- 1.0\n- 1.0\nweights:\n- 0.0\nf: Proposition".to_string())
    );
}

#[test]
fn translate_connective_and_separator() {
    let info = report(&[
        "0 Not: \u{AC}A    FALSE (0.0, 0.0)",
        "params  alpha: 0.9",
        "1 And: (A \u{2227} B)    APPROX_UNKNOWN (0.2, 0.8)",
        "params  alpha: 0.9, bias: 1.0, weights: [1. 1.]",
    ]);
    let expected = "repr: ~A\nalpha:  0.9\nbias: 0.0\nstate:\n- 0.0\n- 0.0\nweights:\n- 0.0\nf: Not\n*\nrepr: (A&B)\nalpha:  0.9\nbias:  1.0\nstate:\n- 0.2\n- 0.8\nweights:\n- 1.\n- 1.\nf: And";
    assert_eq!(translate_info(&info), Some(expected.to_string()));
}

#[test]
fn translate_empty_weight_items_dropped() {
    let info = report(&["1 Or: (A \u{2228} B)    TRUE (1.0, 1.0)", "params  alpha: 0.9, bias: 1.0, weights: [1.  1.]"]);
    let expected = "repr: (A|B)\nalpha:  0.9\nbias:  1.0\nstate:\n- 1.0\n- 1.0\nweights:\n- 1.\n- 1.\nf: Or";
    assert_eq!(translate_info(&info), Some(expected.to_string()));
}

#[test]
fn translate_without_parameter_line_fails() {
    let info = report(&["0 Proposition: A    TRUE (1.0, 1.0)"]);
    assert_eq!(translate_info(&info), None);
}

#[test]
fn translate_without_truth_value_fails() {
    let info = report(&["0 Proposition: A    (1.0, 1.0)", "params  alpha: 0.95"]);
    assert_eq!(translate_info(&info), None);
}

#[test]
fn translate_empty_report() {
    assert_eq!(translate_info("a\nb\nc"), Some(String::new()));
}
