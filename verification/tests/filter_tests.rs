use skunk::filter::{Direction, Filter, FilterExpression, Regex};

fn rx(pattern: &str) -> Regex {
    Regex { pattern: pattern.as_bytes().to_vec() }
}

#[test]
fn single_atom_decides_on_its_assignment() {
    let expr = FilterExpression::parse(b"~d example.com").expect("parses");
    let mut ev = expr.begin_evaluate();
    assert_eq!(ev.get(), None);
    let decided = ev.push(&vec![(Filter::Domain(rx("example.com")), true)]);
    assert_eq!(decided, Some(true));
}

#[test]
fn conjunction_needs_both_atoms() {
    let expr = FilterExpression::parse(b"~d example.com & ~c 404").expect("parses");
    let mut ev = expr.begin_evaluate();
    assert_eq!(ev.push(&vec![(Filter::Domain(rx("example.com")), true)]), None);
    assert_eq!(ev.push(&vec![(Filter::HttpResponseCode(404), true)]), Some(true));
}

#[test]
fn conjunction_fails_early_on_a_false_atom() {
    let expr = FilterExpression::parse(b"~d example.com & ~c 404").expect("parses");
    let mut ev = expr.begin_evaluate();
    // One false conjunct decides the whole conjunction without the other.
    assert_eq!(ev.push(&vec![(Filter::Domain(rx("example.com")), false)]), Some(false));
}

#[test]
fn disjunction_decides_early_on_a_true_atom() {
    let expr = FilterExpression::parse(b"~http | ~websocket").expect("parses");
    let mut ev = expr.begin_evaluate();
    assert_eq!(ev.push(&vec![(Filter::Websocket, true)]), Some(true));
}

#[test]
fn negation_flips_the_atom() {
    let expr = FilterExpression::parse(b"!~http").expect("parses");
    let mut ev = expr.begin_evaluate();
    assert_eq!(ev.push(&vec![(Filter::Http, true)]), Some(false));
}

#[test]
fn parentheses_group() {
    let expr = FilterExpression::parse(b"!(~http | ~tcp)").expect("parses");
    let mut ev = expr.begin_evaluate();
    assert_eq!(ev.push(&vec![(Filter::Http, false)]), None);
    assert_eq!(ev.push(&vec![(Filter::Tcp, false)]), Some(true));
}

#[test]
fn full_assignment_matches_two_valued_evaluation() {
    // (d & !c) | websocket under d=true, c=false, websocket=false is true.
    let expr = FilterExpression::parse(b"(~d example.com & !~c 500) | ~websocket")
        .expect("parses");
    let mut ev = expr.begin_evaluate();
    let decided = ev.push(&vec![
        (Filter::Domain(rx("example.com")), true),
        (Filter::HttpResponseCode(500), false),
        (Filter::Websocket, false),
    ]);
    assert_eq!(decided, Some(true));
}

#[test]
fn decision_latches_against_later_pushes() {
    let expr = FilterExpression::parse(b"~http").expect("parses");
    let mut ev = expr.begin_evaluate();
    assert_eq!(ev.push(&vec![(Filter::Http, true)]), Some(true));
    // Once decided, contradicting pushes change nothing.
    assert_eq!(ev.push(&vec![(Filter::Http, false)]), Some(true));
    assert_eq!(ev.get(), Some(true));
}

#[test]
fn bare_word_matches_on_the_url() {
    let expr = FilterExpression::parse(b"example.com").expect("parses");
    let mut ev = expr.begin_evaluate();
    assert_eq!(ev.push(&vec![(Filter::Url(rx("example.com")), true)]), Some(true));
}

#[test]
fn quoted_pattern_may_hold_spaces() {
    let expr = FilterExpression::parse(b"~m \"GET HEAD\"").expect("parses");
    let mut ev = expr.begin_evaluate();
    assert_eq!(ev.push(&vec![(Filter::Method(rx("GET HEAD")), true)]), Some(true));
}

#[test]
fn directional_atoms_parse_to_their_variants() {
    let expr = FilterExpression::parse(b"~bq token").expect("parses");
    let mut ev = expr.begin_evaluate();
    assert_eq!(
        ev.push(&vec![(Filter::Body(Direction::Request, rx("token")), true)]),
        Some(true)
    );

    let expr = FilterExpression::parse(b"~q").expect("parses");
    let mut ev = expr.begin_evaluate();
    assert_eq!(
        ev.push(&vec![(Filter::Direction(Direction::Request), false)]),
        Some(false)
    );
}

#[test]
fn assignments_for_other_atoms_do_not_decide() {
    let expr = FilterExpression::parse(b"~d example.com").expect("parses");
    let mut ev = expr.begin_evaluate();
    assert_eq!(ev.push(&vec![(Filter::Domain(rx("other.com")), true)]), None);
    assert_eq!(ev.get(), None);
}

#[test]
fn tilde_with_unknown_name_is_rejected() {
    // No filter name starts with `z`.
    assert!(FilterExpression::parse(b"~zebra").is_err());
}

#[test]
fn juxtaposed_atoms_conjoin() {
    // Atoms side by side read as a conjunction, as in the reference
    // language.
    let expr = FilterExpression::parse(b"~http ~tcp").expect("parses");
    let mut ev = expr.begin_evaluate();
    assert_eq!(ev.push(&vec![(Filter::Http, true)]), None);
    assert_eq!(ev.push(&vec![(Filter::Tcp, false)]), Some(false));
}

#[test]
fn tilde_expression_tokenizes_like_the_reference_language() {
    // `~example.com` reads as the error atom `~e` next to the bare word
    // `xample.com`, conjoined by juxtaposition: it selects failed flows
    // whose URL matches, so an ordinary request to example.com is not
    // intercepted, and neither is one to other.com — both fall back to
    // the default handling.
    let expr = FilterExpression::parse(b"~example.com").expect("parses");
    let mut ev = expr.begin_evaluate();
    assert_eq!(ev.push(&vec![(Filter::Error, false)]), Some(false));

    let expr = FilterExpression::parse(b"~example.com").expect("parses");
    let mut ev = expr.begin_evaluate();
    let decided = ev.push(&vec![
        (Filter::Error, false),
        (Filter::Url(rx("other.com")), false),
    ]);
    assert_eq!(decided, Some(false));

    // On a failed flow whose URL matches, the expression does select it.
    let expr = FilterExpression::parse(b"~example.com").expect("parses");
    let mut ev = expr.begin_evaluate();
    let decided = ev.push(&vec![
        (Filter::Error, true),
        (Filter::Url(rx("xample.com")), true),
    ]);
    assert_eq!(decided, Some(true));
}

#[test]
fn plain_words_always_parse() {
    // A bare word with no operator bytes can never be rejected.
    for word in ["example.com", "a.b.c", "x"] {
        let expr = FilterExpression::parse(word.as_bytes()).expect("plain word parses");
        let mut ev = expr.begin_evaluate();
        assert_eq!(ev.push(&vec![(Filter::Url(rx(word)), true)]), Some(true));
    }
}

#[test]
fn unbalanced_parenthesis_is_rejected() {
    assert!(FilterExpression::parse(b"(~http").is_err());
}

#[test]
fn trailing_garbage_is_rejected() {
    assert!(FilterExpression::parse(b"~http )").is_err());
}

#[test]
fn empty_input_is_rejected() {
    assert!(FilterExpression::parse(b"").is_err());
    assert!(FilterExpression::parse(b"   ").is_err());
}

#[test]
fn oversized_status_code_is_rejected() {
    assert!(FilterExpression::parse(b"~c 65536").is_err());
    let expr = FilterExpression::parse(b"~c 65535").expect("parses");
    let mut ev = expr.begin_evaluate();
    assert_eq!(ev.push(&vec![(Filter::HttpResponseCode(65535), true)]), Some(true));
}
