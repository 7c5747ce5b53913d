use argwalk::{classify, Origin, ParseError, TokenClass, ValueSource};

fn long_parts(t: &str) -> (String, Option<String>) {
    match classify(&t.to_string()) {
        TokenClass::Long { name, inline } => (name, inline),
        _ => panic!("not a long flag: {t}"),
    }
}

fn short_parts(t: &str) -> Vec<(char, bool, String)> {
    match classify(&t.to_string()) {
        TokenClass::Short { calls } => calls
            .into_iter()
            .map(|c| {
                let o = match c.origin {
                    Origin::Inline(v) => format!("inline {v}"),
                    Origin::Stream => "stream".to_string(),
                    Origin::MidCluster(m) => format!("mid {m}"),
                };
                (c.flag, c.is_last, o)
            })
            .collect(),
        _ => panic!("not a short cluster: {t}"),
    }
}

#[test]
fn long_names_and_values() {
    assert_eq!(long_parts("--name"), ("name".to_string(), None));
    assert_eq!(
        long_parts("--name=value"),
        ("name".to_string(), Some("value".to_string()))
    );
    assert_eq!(long_parts("--=v"), (String::new(), Some("v".to_string())));
    assert_eq!(long_parts("--n="), ("n".to_string(), Some(String::new())));
    assert_eq!(long_parts("--"), (String::new(), None));
    assert_eq!(long_parts("---x"), ("-x".to_string(), None));
    assert_eq!(
        long_parts("--größe=ä"),
        ("größe".to_string(), Some("ä".to_string()))
    );
}

#[test]
fn positional_shapes() {
    for t in ["", "-", "abc", "a-b", "=x"] {
        assert!(matches!(classify(&t.to_string()), TokenClass::Positional), "{t}");
    }
}

#[test]
fn short_cluster_calls() {
    assert_eq!(
        short_parts("-abc"),
        vec![
            ('a', false, "mid a".to_string()),
            ('b', false, "mid b".to_string()),
            ('c', true, "stream".to_string())
        ]
    );
    assert_eq!(short_parts("-a=x"), vec![('a', true, "inline x".to_string())]);
    assert_eq!(
        short_parts("-ab=x"),
        vec![('a', false, "mid a".to_string()), ('b', true, "inline x".to_string())]
    );
    assert_eq!(short_parts("-a="), vec![('a', true, "inline ".to_string())]);
    assert_eq!(
        short_parts("-=a=b"),
        vec![('=', false, "mid =".to_string()), ('a', true, "inline a=b".to_string())]
    );
    assert_eq!(short_parts("-é"), vec![('é', true, "stream".to_string())]);
}

#[test]
fn source_inline_value() {
    let mut s = ValueSource::new(vec!["next".to_string()], Origin::Inline("v".to_string()));
    assert!(!s.was_taken());
    assert_eq!(s.finish(&"f".to_string()), Err(ParseError::UnusedInlineValue {
        flag: "f".to_string(),
        value: "v".to_string()
    }));
    assert_eq!(s.take(), Ok("v".to_string()));
    assert!(s.was_taken());
    assert_eq!(s.finish(&"f".to_string()), Ok(()));
    assert_eq!(s.into_rest(), vec!["next".to_string()]);
}

#[test]
fn source_stream_values() {
    let ts = vec!["a".to_string(), "b".to_string(), "-c".to_string()];
    let mut s = ValueSource::new(ts, Origin::Stream);
    assert_eq!(s.take(), Ok("a".to_string()));
    assert_eq!(s.take(), Ok("b".to_string()));
    assert_eq!(s.take(), Err(ParseError::ExpectedValueGotFlag("-c".to_string())));
    assert_eq!(s.finish(&"f".to_string()), Ok(()));
    assert_eq!(s.into_rest(), vec!["-c".to_string()]);
    let mut e = ValueSource::new(Vec::new(), Origin::Stream);
    assert_eq!(e.take(), Err(ParseError::MissingValue));
    assert!(!e.was_taken());
}

#[test]
fn source_mid_cluster_refuses() {
    let mut s = ValueSource::new(vec!["a".to_string()], Origin::MidCluster('q'));
    assert_eq!(s.take(), Err(ParseError::CannotTakeValueMidCluster('q')));
    assert_eq!(s.into_rest(), vec!["a".to_string()]);
}
