use aa::bridge::SelectFailure;
use aa::error::Error;
use aa::responses::{ResponseQuery, Responses, QUERY_PATTERN};

fn store(entries: &[(&str, &str)]) -> Responses {
    let mut responses = Responses::new("responses".to_string());
    for (name, document) in entries {
        responses
            .load(name.to_string(), document.to_string())
            .unwrap();
    }
    responses
}

const DOCUMENT: &str = r#"{"a": {"id": 7}, "list": [1, 2, 3], "name": "x", "items": [{"id": 10}, {"id": 20}]}"#;

#[test]
fn test_response_query_from() {
    assert_eq!(
        ResponseQuery::from("{response:foo:bar}").unwrap(),
        vec![ResponseQuery {
            original: "{response:foo:bar}",
            response: "foo",
            query: "bar"
        }]
    );

    assert_eq!(
        ResponseQuery::from("{response:foo:bar} {response:bar:baz}").unwrap(),
        vec![
            ResponseQuery {
                original: "{response:foo:bar}",
                response: "foo",
                query: "bar"
            },
            ResponseQuery {
                original: "{response:bar:baz}",
                response: "bar",
                query: "baz"
            }
        ]
    );

    assert_eq!(ResponseQuery::from("").unwrap(), vec![]);

    assert!(
        ResponseQuery::from("{response:foo.bar}").is_err(),
        "bad response didn't error"
    );
}

#[test]
fn test_responses_apply() {}

#[test]
fn query_without_path_is_malformed() {
    assert_eq!(
        ResponseQuery::from("x {response:foo.bar} y"),
        Err(Error::MalformedQuery("{response:foo.bar}".to_string()))
    );
    assert_eq!(
        ResponseQuery::from("{response:a:b} {response:}"),
        Err(Error::MalformedQuery("{response:}".to_string()))
    );
}

#[test]
fn path_may_hold_colons() {
    assert_eq!(
        ResponseQuery::from("{response:foo:$.a:b}").unwrap(),
        vec![ResponseQuery {
            original: "{response:foo:$.a:b}",
            response: "foo",
            query: "$.a:b"
        }]
    );
}

#[test]
fn queries_are_found_inside_other_text() {
    let found = ResponseQuery::from("http://{host}/{response:login:$.id}/x?{response:b:$.c}").unwrap();
    assert_eq!(found.len(), 2);
    assert_eq!(found[0].original, "{response:login:$.id}");
    assert_eq!(found[0].response, "login");
    assert_eq!(found[0].query, "$.id");
    assert_eq!(found[1].original, "{response:b:$.c}");
    assert_eq!(ResponseQuery::from("{foo} {response:unclosed").unwrap(), vec![]);
}

#[test]
fn parse_reads_one_token() {
    assert_eq!(
        ResponseQuery::parse("{response:foo:bar}"),
        Ok(ResponseQuery {
            original: "{response:foo:bar}",
            response: "foo",
            query: "bar"
        })
    );
    assert_eq!(
        ResponseQuery::parse("{response::}"),
        Ok(ResponseQuery {
            original: "{response::}",
            response: "",
            query: ""
        })
    );
    assert_eq!(
        ResponseQuery::parse("{response:é:ü}"),
        Ok(ResponseQuery {
            original: "{response:é:ü}",
            response: "é",
            query: "ü"
        })
    );
    assert_eq!(
        ResponseQuery::parse("{response:foo}"),
        Err(Error::MalformedQuery("{response:foo}".to_string()))
    );
    assert_eq!(
        ResponseQuery::parse(""),
        Err(Error::MalformedQuery("".to_string()))
    );
}

#[test]
fn parse_takes_text_without_opening_or_closing_as_it_is() {
    assert_eq!(
        ResponseQuery::parse("foo:bar"),
        Ok(ResponseQuery {
            original: "foo:bar",
            response: "foo",
            query: "bar"
        })
    );
    assert_eq!(
        ResponseQuery::parse("{response:foo:bar"),
        Ok(ResponseQuery {
            original: "{response:foo:bar",
            response: "foo",
            query: "bar"
        })
    );
}

#[test]
fn from_tokens_reads_in_order_and_stops_at_first_failure() {
    let tokens = vec!["{response:a:b}", "{response:c:d}"];
    let queries = ResponseQuery::from_tokens(&tokens).unwrap();
    assert_eq!(queries.len(), 2);
    assert_eq!(queries[0].response, "a");
    assert_eq!(queries[1].query, "d");
    let tokens = vec!["{response:a:b}", "{response:x}", "{response:y}"];
    assert_eq!(
        ResponseQuery::from_tokens(&tokens),
        Err(Error::MalformedQuery("{response:x}".to_string()))
    );
    let none: Vec<&str> = Vec::new();
    assert_eq!(ResponseQuery::from_tokens(&none), Ok(vec![]));
}

#[test]
fn from_pattern_reads_what_the_pattern_matches() {
    assert_eq!(
        ResponseQuery::from_pattern("[a-z]+:[0-9]+", "ab:12, cd:3").unwrap(),
        vec![
            ResponseQuery {
                original: "ab:12",
                response: "ab",
                query: "12"
            },
            ResponseQuery {
                original: "cd:3",
                response: "cd",
                query: "3"
            }
        ]
    );
    assert_eq!(
        ResponseQuery::from_pattern("[a-z]+", "ab cd"),
        Err(Error::MalformedQuery("ab".to_string()))
    );
}

#[test]
fn pattern_that_is_no_expression_is_an_error() {
    assert_eq!(
        ResponseQuery::from_pattern("(", "{response:a:b}"),
        Err(Error::InvalidPattern)
    );
    assert_eq!(
        ResponseQuery::from_pattern("[", ""),
        Err(Error::InvalidPattern)
    );
}

#[test]
fn apply_substitutes_selected_value() {
    let responses = store(&[("login", DOCUMENT)]);
    assert_eq!(
        responses.apply("id={response:login:$.a.id}!"),
        Ok("id=7!".to_string())
    );
    assert_eq!(
        responses.apply("{response:login:$.name}"),
        Ok("\"x\"".to_string())
    );
    assert_eq!(
        responses.apply("{response:login:$.a}"),
        Ok("{\"id\":7}".to_string())
    );
    assert_eq!(responses.apply("no tokens here"), Ok("no tokens here".to_string()));
    assert_eq!(responses.apply(""), Ok("".to_string()));
}

#[test]
fn apply_handles_several_tokens() {
    let responses = store(&[("one", DOCUMENT), ("two", r#"{"v": "w"}"#)]);
    assert_eq!(
        responses.apply("{response:one:$.a.id}/{response:two:$.v}/{response:one:$.a.id}"),
        Ok("7/\"w\"/7".to_string())
    );
}

#[test]
fn first_match_is_used() {
    let responses = store(&[("login", DOCUMENT)]);
    assert_eq!(responses.apply("{response:login:$.list[*]}"), Ok("1".to_string()));
    assert_eq!(responses.apply("{response:login:$..id}"), Ok("7".to_string()));
    assert_eq!(
        responses.apply("{response:login:$.items[*].id}"),
        Ok("10".to_string())
    );
    assert_eq!(responses.apply("{response:login:$.list}"), Ok("[1,2,3]".to_string()));
}

#[test]
fn query_not_found_is_an_error() {
    let responses = store(&[("login", DOCUMENT)]);
    assert_eq!(
        responses.apply("{response:login:$.missing}"),
        Err(Error::QueryNotFound("$.missing".to_string()))
    );
    assert_eq!(
        responses.apply("{response:login:$.a.id} {response:login:$.nothing}"),
        Err(Error::QueryNotFound("$.nothing".to_string()))
    );
}

#[test]
fn response_that_is_not_held_is_asked_for() {
    let responses = store(&[("login", DOCUMENT)]);
    assert_eq!(
        responses.apply("{response:other:$.a}"),
        Err(Error::NotLoaded("other".to_string()))
    );
    // The first query decides: its path error comes before the load.
    assert_eq!(
        responses.apply("{response:login:$.missing} {response:other:$.a}"),
        Err(Error::QueryNotFound("$.missing".to_string()))
    );
    assert_eq!(
        responses.apply("{response:other:$.a} {response:login:$.missing}"),
        Err(Error::NotLoaded("other".to_string()))
    );
}

#[test]
fn malformed_query_fails_before_anything_is_looked_up() {
    let responses = store(&[]);
    assert_eq!(
        responses.apply("{response:other:$.a} {response:bad}"),
        Err(Error::MalformedQuery("{response:bad}".to_string()))
    );
}

#[test]
fn response_that_is_no_json_is_kept_out() {
    let mut responses = store(&[("good", DOCUMENT)]);
    for broken in ["{not json", "", "{\"a\": 1} trailing", "[1, 2"] {
        assert_eq!(
            responses.load("broken".to_string(), broken.to_string()),
            Err(Error::InvalidResponse("broken".to_string()))
        );
        assert!(!responses.is_loaded("broken"));
        assert_eq!(responses.get("broken"), None);
        assert_eq!(responses.get("good"), Some(&DOCUMENT.to_string()));
        assert_eq!(
            responses.apply("{response:broken:$.a}"),
            Err(Error::NotLoaded("broken".to_string()))
        );
    }
    // A later load under the same name is taken in.
    assert_eq!(
        responses.load("broken".to_string(), "{\"a\": 1}".to_string()),
        Ok(())
    );
    assert_eq!(responses.apply("{response:broken:$.a}"), Ok("1".to_string()));
    // A name that is held is not looked at again, whatever is offered.
    assert_eq!(
        responses.load("good".to_string(), "{not json".to_string()),
        Ok(())
    );
    assert_eq!(responses.get("good"), Some(&DOCUMENT.to_string()));
    for fine in ["1", "\"text\"", "null", "[]", " {} "] {
        let mut responses = store(&[]);
        assert_eq!(responses.load("n".to_string(), fine.to_string()), Ok(()));
    }
}

#[test]
fn path_that_is_refused_is_an_error() {
    let responses = store(&[("login", DOCUMENT)]);
    assert_eq!(
        responses.apply("{response:login:$[]}"),
        Err(Error::InvalidPath("$[]".to_string()))
    );
    assert_eq!(
        responses.apply("{response:login:nonsense}"),
        Err(Error::InvalidPath("nonsense".to_string()))
    );
}

#[test]
fn filters_select_and_the_first_match_is_used() {
    let responses = store(&[("login", DOCUMENT)]);
    assert_eq!(
        responses.apply("{response:login:$.items[?(@.id == 10)]}"),
        Ok("{\"id\":10}".to_string())
    );
    assert_eq!(
        responses.apply("{response:login:$.items[?(@.id > 5)].id}"),
        Ok("10".to_string())
    );
    assert_eq!(
        responses.apply("{response:login:$.items[?(@.id >= 10.5 && @.id != 30)].id}"),
        Ok("20".to_string())
    );
    assert_eq!(
        responses.apply("{response:login:$.items[?(@.id)].id}"),
        Ok("10".to_string())
    );
}

#[test]
fn filter_that_selects_nothing_is_not_found() {
    let responses = store(&[("login", DOCUMENT)]);
    for path in [
        "$.items[?(@.id == 99)]",
        "$.items[?(@.id < -1)].id",
        "$.items[?(@.name == 'x')]",
        "$.list[5:9:2]",
    ] {
        assert_eq!(
            responses.apply(&format!("{{response:login:{}}}", path)),
            Err(Error::QueryNotFound(path.to_string()))
        );
    }
}

#[test]
fn steps_that_are_not_zero_are_evaluated() {
    let responses = store(&[("login", DOCUMENT)]);
    assert_eq!(responses.apply("{response:login:$.list[::2]}"), Ok("1".to_string()));
    assert_eq!(responses.apply("{response:login:$.list[1::1]}"), Ok("2".to_string()));
    assert_eq!(responses.apply("{response:login:$.list[1:3:10]}"), Ok("2".to_string()));
    assert_eq!(responses.apply("{response:login:$.list[1:]}"), Ok("2".to_string()));
    assert_eq!(responses.apply("{response:login:$.list[0:2]}"), Ok("1".to_string()));
    assert_eq!(responses.apply("{response:login:$.list[-1]}"), Ok("3".to_string()));
    assert_eq!(
        responses.apply("{response:login:$.items[0:1].id}{response:login:$.items[1:2].id}"),
        Ok("1020".to_string())
    );
}

#[test]
fn paths_on_which_the_evaluator_gives_up_are_not_evaluated() {
    let responses = store(&[("login", DOCUMENT)]);
    for path in [
        "$.list[0:3:0]",
        "$.list[::0]",
        "$.list[1::00]",
        "$.items[?(@['a','b'])]",
        "$.items[?(@.a[0:1])]",
        "$.items[?(@.a[0] == 1)]",
        "$.items[?($.a == 1)]",
        "$.items[?(@.id == 1e999)]",
        "$.items[?(@.id == -inf)]",
        "$.items[?(@.id == 1.e999)]",
        "$.items[?(@.id == 1)][0,1]",
    ] {
        assert!(!Responses::path_is_plain(path), "{}", path);
        assert_eq!(
            responses.apply(&format!("{{response:login:{}}}", path)),
            Err(Error::UnsupportedPath(path.to_string()))
        );
    }
    for path in [
        "$.list[0:2]",
        "$.list[::2]",
        "$.a[0:1].b[0:1]",
        "$['a:b']",
        "$['a','b']",
        "$.list[0,1]",
        "$",
        "",
        "$.items[?(@.id == 10)]",
        "$.items[?(@.date == '2020-01-01')]",
        "$.items[?(@.e1 < -12.50)]",
    ] {
        assert!(Responses::path_is_plain(path), "{}", path);
    }
}

#[test]
fn each_response_is_taken_in_once() {
    let mut responses = Responses::new("dir".to_string());
    assert!(!responses.is_loaded("login"));
    assert_eq!(responses.get("login"), None);
    assert_eq!(
        responses.apply("{response:login:$.v} {response:login:$.v}"),
        Err(Error::NotLoaded("login".to_string()))
    );
    assert_eq!(
        responses.load("login".to_string(), r#"{"v": 1}"#.to_string()),
        Ok(())
    );
    assert!(responses.is_loaded("login"));
    assert_eq!(
        responses.apply("{response:login:$.v} {response:login:$.v}"),
        Ok("1 1".to_string())
    );
    // A second load under the same name changes nothing.
    assert_eq!(
        responses.load("login".to_string(), r#"{"v": 2}"#.to_string()),
        Ok(())
    );
    assert_eq!(
        responses.load("other".to_string(), r#"{"v": 3}"#.to_string()),
        Ok(())
    );
    assert_eq!(responses.get("login"), Some(&r#"{"v": 1}"#.to_string()));
    assert_eq!(responses.apply("{response:login:$.v}"), Ok("1".to_string()));
    assert_eq!(responses.apply("{response:other:$.v}"), Ok("3".to_string()));
}

#[test]
fn substituted_value_replaces_every_occurrence_of_the_token() {
    let responses = store(&[("r", r#"{"v": "{response:r:$.v}"}"#)]);
    // The value holds the token itself; the second query replaces it too.
    assert_eq!(
        responses.apply("{response:r:$.v}"),
        Ok("\"{response:r:$.v}\"".to_string())
    );
    let responses = store(&[("r", r#"{"v": 5}"#)]);
    assert_eq!(
        responses.apply("{response:r:$.v}+{response:r:$.v}"),
        Ok("5+5".to_string())
    );
}

#[test]
fn pick_takes_the_first_value() {
    assert_eq!(
        Responses::pick(Ok(vec!["1".to_string(), "2".to_string()]), "r", "$.p"),
        Ok("1".to_string())
    );
    assert_eq!(
        Responses::pick(Ok(vec![]), "r", "$.p"),
        Err(Error::QueryNotFound("$.p".to_string()))
    );
    assert_eq!(
        Responses::pick(Err(SelectFailure::Document), "r", "$.p"),
        Err(Error::InvalidResponse("r".to_string()))
    );
    assert_eq!(
        Responses::pick(Err(SelectFailure::Path), "r", "$.p"),
        Err(Error::InvalidPath("$.p".to_string()))
    );
}

#[test]
fn file_name_is_base64_of_the_name() {
    assert_eq!(Responses::file_name("foo"), "Zm9v");
    assert_eq!(Responses::file_name("get user/1"), "Z2V0IHVzZXIvMQ==");
    assert_eq!(Responses::file_name(""), "");
    assert_ne!(Responses::file_name("a"), Responses::file_name("b"));
}

#[test]
fn store_remembers_its_directory() {
    let responses = Responses::new("/tmp/project/responses".to_string());
    assert_eq!(responses.path(), "/tmp/project/responses");
}

#[test]
fn error_messages() {
    assert_eq!(
        Error::MalformedQuery("{response:x}".to_string()).message(),
        "invalid response query: {response:x}"
    );
    assert_eq!(
        Error::QueryNotFound("$.a".to_string()).message(),
        "json path not found: $.a"
    );
    assert_eq!(
        Error::InvalidPath("$[".to_string()).message(),
        "invalid json path: $["
    );
    assert_eq!(
        Error::UnsupportedPath("$[?(@.a)]".to_string()).message(),
        "unsupported json path: $[?(@.a)]"
    );
    assert_eq!(
        Error::NotLoaded("login".to_string()).message(),
        "response not loaded: login"
    );
    assert_eq!(
        Error::InvalidResponse("login".to_string()).message(),
        "invalid response: login"
    );
    assert_eq!(
        Error::InvalidMethod("ge t".to_string()).message(),
        "invalid HTTP method: ge t"
    );
    assert_eq!(
        Error::InvalidUri("http://a b/".to_string()).message(),
        "invalid uri: http://a b/"
    );
    assert_eq!(
        Error::InvalidHeader("Bad Name".to_string()).message(),
        "invalid header: Bad Name"
    );
    assert_eq!(
        Error::InvalidPattern.message(),
        "invalid response query pattern"
    );
}

fn tokens_by_hand(text: &str) -> Vec<String> {
    let chars: Vec<char> = text.chars().collect();
    let opening: Vec<char> = "{response:".chars().collect();
    let mut found = Vec::new();
    let mut from = 0;
    loop {
        let start = (from..chars.len()).find(|i| chars[*i..].starts_with(&opening));
        let start = match start {
            Some(start) => start,
            None => return found,
        };
        let close = (start + opening.len()..chars.len()).find(|j| chars[*j] == '}');
        let close = match close {
            Some(close) => close,
            None => return found,
        };
        found.push(chars[start..=close].iter().collect());
        from = close + 1;
    }
}

#[test]
fn pattern_finds_the_tokens_of_the_grammar() {
    let pieces = [
        "{response:", "}", "{", ":", "a", "b", " ", "\n", "é", "{response", "response:", "}}", "$.x",
    ];
    let pattern = regex::Regex::new(QUERY_PATTERN).unwrap();
    let mut state: u64 = 7;
    for _ in 0..3000 {
        let mut text = String::new();
        state = state.wrapping_mul(6364136223846793005).wrapping_add(1442695040888963407);
        let len = (state >> 33) % 12;
        for _ in 0..len {
            state = state.wrapping_mul(6364136223846793005).wrapping_add(1442695040888963407);
            text.push_str(pieces[((state >> 33) % pieces.len() as u64) as usize]);
        }
        let expected = tokens_by_hand(&text);
        let matched: Vec<String> = pattern
            .find_iter(&text)
            .map(|m| m.as_str().to_string())
            .collect();
        assert_eq!(matched, expected, "in {:?}", text);
        match ResponseQuery::from(&text) {
            Ok(queries) => {
                let originals: Vec<String> =
                    queries.iter().map(|q| q.original.to_string()).collect();
                assert_eq!(originals, expected, "in {:?}", text);
            }
            Err(Error::MalformedQuery(bad)) => assert!(expected.contains(&bad)),
            Err(other) => panic!("{:?} in {:?}", other, text),
        }
    }
}

#[test]
fn tokens_by_hand_on_examples() {
    assert_eq!(tokens_by_hand(""), Vec::<String>::new());
    assert_eq!(tokens_by_hand("{response:a:b}"), vec!["{response:a:b}"]);
    assert_eq!(
        tokens_by_hand("x{response:{response:a:b}y}{response:}{response:z"),
        vec!["{response:{response:a:b}", "{response:}"]
    );
    assert_eq!(
        ResponseQuery::from("x{response:q:$.a}y{response:r:$.b}").unwrap().len(),
        2
    );
}
