use skillranker::roster::retrieval::{
    bounded_source, compile_query, is_literal_disjunction, preserves_terms, quote_literal,
    validate_query, AnalyzedSources, BooleanOperator, Occur, ParserReading, QueryBuilder,
    QueryClause, QueryCompileError, QueryField, QueryInput, QueryNode, Term, MAX_QUERY_SCALARS,
    MAX_QUERY_TERMS, MAX_SOURCE_SCALARS,
};
use skillranker::score::Score;

fn score(value: f64) -> Score {
    Score {
        bits: value.to_bits(),
    }
}

fn leaf(field: u64, boost: f64, text: &str) -> QueryClause {
    QueryClause {
        occur: Occur::Should,
        query: QueryNode::Term {
            fields: vec![QueryField {
                field_id: field,
                boost: score(boost),
            }],
            text: text.to_string(),
        },
    }
}

fn either(clauses: Vec<QueryClause>) -> QueryNode {
    QueryNode::Boolean {
        clauses,
        operator: None,
    }
}

/// What the parser makes of an unfielded term: one leaf per field.
fn expanded(text: &str) -> QueryClause {
    QueryClause {
        occur: Occur::Should,
        query: either(vec![leaf(1, 1.0, text), leaf(2, 2.0, text)]),
    }
}

fn parsed(query: QueryNode) -> ParserReading {
    ParserReading::Parsed {
        query,
        diagnostic_count: 0,
        was_truncated: false,
    }
}

fn terms(list: &[&str]) -> Vec<String> {
    list.iter().map(|t| t.to_string()).collect()
}

#[test]
fn literal_quoting_counts_delimiters_and_escapes() {
    let rendered = quote_literal("a\"b\\猫");
    assert_eq!(rendered, "\"a\\\"b\\\\猫\"");
    assert_eq!(rendered.chars().count(), 9);
    assert_eq!(quote_literal("OR"), "\"OR\"");
    assert!(is_literal_disjunction(&rendered));
    assert!(is_literal_disjunction("\"alpha\" OR \"beta\""));
    for invalid in ["alpha* OR beta", "\"alpha\" OR ", "\"a\\q\"", "\"alpha"] {
        assert!(!is_literal_disjunction(invalid));
    }
}

#[test]
fn parser_recovery_and_truncation_are_failures_with_text_free_diagnostics() {
    let expected = terms(&["privatecanary"]);
    let recovered = ParserReading::Parsed {
        query: either(vec![expanded("privatecanary")]),
        diagnostic_count: 1,
        was_truncated: false,
    };
    let error = validate_query("\"privatecanary", &recovered, &expected).unwrap_err();
    assert!(matches!(
        error,
        QueryCompileError::ParserRejected {
            diagnostic_count: 1..,
            was_truncated: false,
        }
    ));
    assert!(!format!("{error:?}: {}", error.as_str()).contains("privatecanary"));
    let cut = ParserReading::Parsed {
        query: either(vec![]),
        diagnostic_count: 0,
        was_truncated: true,
    };
    assert!(matches!(
        validate_query("x x", &cut, &expected),
        Err(QueryCompileError::ParserRejected {
            was_truncated: true,
            ..
        })
    ));
    let honest = parsed(expanded("privatecanary").query);
    assert_eq!(validate_query("\"privatecanary\"", &honest, &expected), Ok(()));
    assert_eq!(
        validate_query("\"privatecanary\"", &ParserReading::SchemaMismatch, &expected),
        Err(QueryCompileError::SchemaMismatch)
    );
}

#[test]
fn syntactically_valid_but_changed_meaning_is_refused() {
    let expected = terms(&["alpha", "beta"]);
    let both = || either(vec![expanded("alpha"), expanded("beta")]);
    let conjunction = QueryNode::Boolean {
        clauses: vec![expanded("alpha"), expanded("beta")],
        operator: Some(BooleanOperator::And),
    };
    let boosted = either(vec![
        QueryClause {
            occur: Occur::Should,
            query: either(vec![leaf(1, 4.0, "alpha"), leaf(2, 8.0, "alpha")]),
        },
        expanded("beta"),
    ]);
    for (case, query, reading) in [
        (0, "alpha AND beta", parsed(conjunction)),
        (
            1,
            "title:alpha OR beta",
            parsed(either(vec![leaf(2, 2.0, "alpha"), expanded("beta")])),
        ),
        (2, "alpha* OR beta", parsed(both())),
        (3, "\"alpha beta\"", parsed(QueryNode::Other)),
        (
            4,
            "alpha OR gamma",
            parsed(either(vec![expanded("alpha"), expanded("gamma")])),
        ),
        (5, "alpha^4 OR beta", parsed(boosted)),
        (6, "*", parsed(QueryNode::Other)),
    ] {
        assert_eq!(
            validate_query(query, &reading, &expected),
            Err(QueryCompileError::MeaningChanged),
            "syntax fixture {case}"
        );
    }
    assert_eq!(
        validate_query("\"alpha\" OR \"beta\"", &parsed(both()), &expected),
        Ok(())
    );
}

#[test]
fn field_expansion_requires_both_fields_once_with_their_exact_boosts() {
    let expected = terms(&["alpha"]);
    let honest = either(vec![leaf(1, 1.0, "alpha"), leaf(2, 2.0, "alpha")]);
    assert!(preserves_terms(&honest, &expected));
    for clauses in [
        vec![leaf(1, 1.0, "alpha")],
        vec![
            leaf(1, 1.0, "alpha"),
            leaf(1, 1.0, "alpha"),
            leaf(2, 2.0, "alpha"),
        ],
        vec![leaf(1, 1.0, "alpha"), leaf(2, 4.0, "alpha")],
    ] {
        assert!(!preserves_terms(&either(clauses), &expected));
    }
}

#[test]
fn clauses_must_all_be_optional() {
    let mut clauses = vec![leaf(1, 1.0, "alpha"), leaf(2, 2.0, "alpha")];
    clauses[1].occur = Occur::Must;
    assert!(!preserves_terms(&either(clauses), &terms(&["alpha"])));
    let bare = QueryNode::Term {
        fields: vec![],
        text: "alpha".to_string(),
    };
    assert!(!preserves_terms(&bare, &terms(&["alpha"])));
    assert!(preserves_terms(&either(vec![]), &terms(&[])));
}

fn term(normalized: &str, source: &str) -> Term {
    Term {
        normalized: normalized.to_string(),
        source: source.to_string(),
    }
}

fn sources(latest: Vec<Term>, task: Vec<Term>, errors: Vec<Term>) -> AnalyzedSources {
    AnalyzedSources {
        latest_request: latest,
        active_task: task,
        recent_errors: errors,
        input_truncated: [false, true, false],
    }
}

#[test]
fn sources_are_interleaved_and_terms_deduplicated() {
    let input = sources(
        vec![term("fix", "Fix"), term("bug", "bug")],
        vec![term("parser", "parser"), term("fix", "fix")],
        vec![term("error", "ERROR")],
    );
    let reading = parsed(either(vec![
        expanded("fix"),
        expanded("parser"),
        expanded("error"),
        expanded("bug"),
    ]));
    let compiled = compile_query(input, &reading).unwrap();
    let query = compiled.query.unwrap();
    assert_eq!(
        query.as_str(),
        "\"Fix\" OR \"parser\" OR \"ERROR\" OR \"bug\""
    );
    assert!(is_literal_disjunction(query.as_str()));
    let d = compiled.diagnostics;
    assert_eq!(d.analyzed_tokens, 5);
    assert_eq!(d.duplicate_terms, 1);
    assert_eq!(d.omitted_terms, 0);
    assert_eq!(d.emitted_terms, 4);
    assert_eq!(d.query_scalars, query.as_str().chars().count());
    assert_eq!(d.input_truncated, [false, true, false]);
    assert!(!d.term_limit_reached && !d.scalar_limit_reached);
}

#[test]
fn nothing_to_search_is_no_query_and_nothing_that_fits_is_an_error() {
    let none = compile_query(sources(vec![], vec![], vec![]), &ParserReading::SchemaMismatch);
    let none = none.unwrap();
    assert!(none.query.is_none());
    assert_eq!(none.diagnostics.analyzed_tokens, 0);
    let long = "x".repeat(MAX_QUERY_SCALARS);
    let refused = compile_query(
        sources(vec![term("x", &long)], vec![], vec![]),
        &ParserReading::SchemaMismatch,
    );
    assert_eq!(refused.err(), Some(QueryCompileError::UnrepresentableTerms));
}

#[test]
fn rendering_stops_at_the_term_limit() {
    let list: Vec<Term> = (0..MAX_QUERY_TERMS + 3)
        .map(|i| term(&format!("t{i}"), &format!("t{i}")))
        .collect();
    let mut builder = QueryBuilder::new(sources(list, vec![], vec![]));
    while builder.has_round() {
        builder.advance();
    }
    assert_eq!(builder.expected().len(), MAX_QUERY_TERMS);
    assert!(is_literal_disjunction(builder.rendered()));
    assert!(builder.rendered().chars().count() <= MAX_QUERY_SCALARS);
}

#[test]
fn long_sources_are_cut_at_a_word() {
    let short = "one two";
    let input = QueryInput {
        latest_request: short,
        active_task: "",
        recent_errors: "",
    };
    assert_eq!(bounded_source(input.latest_request), (short.to_string(), false));
    let mut long = "a".repeat(MAX_SOURCE_SCALARS - 3);
    long.push_str(" wordlong");
    let (cut, truncated) = bounded_source(&long);
    assert!(truncated);
    assert_eq!(cut, format!("{} ", "a".repeat(MAX_SOURCE_SCALARS - 3)));
    let mut clean = "é".repeat(MAX_SOURCE_SCALARS);
    clean.push_str(" tail");
    let (cut, truncated) = bounded_source(&clean);
    assert!(truncated);
    assert_eq!(cut.chars().count(), MAX_SOURCE_SCALARS);
    let solid = "é".repeat(MAX_SOURCE_SCALARS + 1);
    assert_eq!(bounded_source(&solid), (String::new(), true));
}

#[test]
fn compile_errors_have_their_texts() {
    assert_eq!(QueryCompileError::Cancelled.as_str(), "query compilation cancelled");
    assert_eq!(
        QueryCompileError::MeaningChanged.as_str(),
        "query parser did not preserve literal disjunction semantics"
    );
}
