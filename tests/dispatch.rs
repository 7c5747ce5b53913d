use argwalk::{parse, ArgumentParser, ParseError, ValueSource, DEFAULT_VERSION};

/// Records every handler call. Long flags other than `quiet` and `keep`, short
/// flags `o`, `v`, `x` and the argument `pair` ask for a value; the argument
/// `sub` starts a subcommand; the long flag `bad` is refused.
#[derive(Default, Debug, PartialEq)]
struct Rec {
    log: Vec<String>,
}

impl ArgumentParser for Rec {
    fn fresh() -> Self {
        Rec::default()
    }

    fn help(&self) -> String {
        "usage: rec [flags]".to_string()
    }

    fn long(&mut self, long: &str, next: &mut ValueSource) -> Result<(), ParseError> {
        if long == "bad" {
            return Err(ParseError::Handler("bad flag".to_string()));
        }
        if long == "quiet" || long == "keep" {
            self.log.push(format!("long {long}"));
            return Ok(());
        }
        let v = next.take()?;
        self.log.push(format!("long {long}={v}"));
        Ok(())
    }

    fn short(&mut self, short: char, is_last: bool, next: &mut ValueSource) -> Result<(), ParseError> {
        if "ovx".contains(short) {
            let v = next.take()?;
            self.log.push(format!("short {short} {is_last}={v}"));
        } else {
            self.log.push(format!("short {short} {is_last}"));
        }
        Ok(())
    }

    fn argument(&mut self, arg: &str, next: &mut ValueSource) -> Result<bool, ParseError> {
        if arg == "sub" {
            return Ok(true);
        }
        if arg == "pair" {
            let v = next.take()?;
            self.log.push(format!("arg pair={v}"));
            return Ok(false);
        }
        self.log.push(format!("arg {arg}"));
        Ok(false)
    }

    fn subcommand(&mut self, command: &str, command_args: Vec<String>) -> Result<(), ParseError> {
        self.log.push(format!("sub {command} {:?}", command_args));
        Ok(())
    }
}

fn toks(ts: &[&str]) -> Vec<String> {
    ts.iter().map(|t| t.to_string()).collect()
}

fn run(ts: &[&str]) -> Result<Vec<String>, ParseError> {
    parse::<Rec>(toks(ts)).map(|r| r.log)
}

#[test]
fn empty_input_fails() {
    assert_eq!(run(&[]), Err(ParseError::EmptyInput));
}

#[test]
fn positional_tokens_reach_argument_in_order() {
    assert_eq!(
        run(&["a", "b", "-", "c"]).unwrap(),
        vec!["arg a", "arg b", "arg -", "arg c"]
    );
}

#[test]
fn long_inline_value_is_delivered() {
    assert_eq!(run(&["--out=file.txt"]).unwrap(), vec!["long out=file.txt"]);
}

#[test]
fn long_inline_value_splits_at_first_eq() {
    assert_eq!(run(&["--out=a=b"]).unwrap(), vec!["long out=a=b"]);
}

#[test]
fn long_inline_value_unused_fails() {
    assert_eq!(
        run(&["--quiet=yes"]),
        Err(ParseError::UnusedInlineValue {
            flag: "quiet".to_string(),
            value: "yes".to_string()
        })
    );
}

#[test]
fn long_flag_takes_next_token() {
    assert_eq!(
        run(&["--out", "file.txt", "rest"]).unwrap(),
        vec!["long out=file.txt", "arg rest"]
    );
}

#[test]
fn long_flag_without_value_needs_none() {
    assert_eq!(run(&["--quiet", "x"]).unwrap(), vec!["long quiet", "arg x"]);
}

#[test]
fn long_flag_last_misses_value() {
    assert_eq!(run(&["--out"]), Err(ParseError::MissingValue));
}

#[test]
fn long_flag_refuses_flag_as_value() {
    assert_eq!(
        run(&["--out", "-v"]),
        Err(ParseError::ExpectedValueGotFlag("-v".to_string()))
    );
}

#[test]
fn double_dash_alone_is_long_flag_with_empty_name() {
    assert_eq!(run(&["--", "x"]).unwrap(), vec!["long =x"]);
}

#[test]
fn short_cluster_dispatches_in_order() {
    assert_eq!(
        run(&["-abc"]).unwrap(),
        vec!["short a false", "short b false", "short c true"]
    );
}

#[test]
fn short_cluster_last_takes_next_token() {
    assert_eq!(
        run(&["-abo", "file", "x"]).unwrap(),
        vec!["short a false", "short b false", "short o true=file", "arg x"]
    );
}

#[test]
fn short_mid_cluster_cannot_take_value() {
    assert_eq!(
        run(&["-ob"]),
        Err(ParseError::CannotTakeValueMidCluster('o'))
    );
}

#[test]
fn short_inline_value() {
    assert_eq!(run(&["-o=x"]).unwrap(), vec!["short o true=x"]);
}

#[test]
fn short_cluster_with_inline_value_dispatches_each_char() {
    assert_eq!(
        run(&["-ab=x"]),
        Err(ParseError::UnusedInlineValue {
            flag: "b".to_string(),
            value: "x".to_string()
        })
    );
    assert_eq!(
        run(&["-ao=x"]).unwrap(),
        vec!["short a false", "short o true=x"]
    );
}

#[test]
fn short_inline_value_unused_fails() {
    assert_eq!(
        run(&["-a=x"]),
        Err(ParseError::UnusedInlineValue {
            flag: "a".to_string(),
            value: "x".to_string()
        })
    );
}

#[test]
fn short_inline_value_splits_at_first_eq_of_cluster() {
    assert_eq!(
        run(&["-a=o=x"]),
        Err(ParseError::UnusedInlineValue {
            flag: "a".to_string(),
            value: "o=x".to_string()
        })
    );
}

#[test]
fn short_last_misses_value() {
    assert_eq!(run(&["-o"]), Err(ParseError::MissingValue));
}

#[test]
fn argument_can_take_next_token() {
    assert_eq!(
        run(&["pair", "x", "y"]).unwrap(),
        vec!["arg pair=x", "arg y"]
    );
}

#[test]
fn subcommand_receives_remaining_tokens() {
    assert_eq!(
        run(&["a", "sub", "--out", "-v", "z"]).unwrap(),
        vec![
            "arg a".to_string(),
            format!("sub sub {:?}", vec!["--out", "-v", "z"])
        ]
    );
}

#[test]
fn subcommand_as_last_token_gets_nothing() {
    assert_eq!(
        run(&["sub"]).unwrap(),
        vec![format!("sub sub {:?}", Vec::<String>::new())]
    );
}

#[test]
fn handler_error_stops_parse() {
    assert_eq!(
        run(&["--bad", "--out"]),
        Err(ParseError::Handler("bad flag".to_string()))
    );
}

#[test]
fn parse_twice_gives_equal_results() {
    let ts = ["x", "-abo", "f", "--out=y", "--quiet", "sub", "q"];
    assert_eq!(parse::<Rec>(toks(&ts)), parse::<Rec>(toks(&ts)));
    assert_eq!(run(&["-ob"]), run(&["-ob"]));
}

#[test]
fn default_version_and_help() {
    let r = Rec::default();
    assert_eq!(r.version(), DEFAULT_VERSION);
    assert_eq!(r.help(), "usage: rec [flags]");
}
