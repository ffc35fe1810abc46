use args::err;
use args::Argument;
use args::ArgumentType;
use args::Arguments;
use args::ArgsError;
use args::OptionType;
use args::tokenize;

struct Options {
    name: String,
    value: String,
    verbose: bool,
}

impl Options {
    fn extract(
        args: &mut Arguments,
        options: &mut Options,
        arg: Argument,
    ) -> Result<(), ArgsError> {
        match arg.qualifier() {
            "n" | "name" => options.name = args.enforce_next_value(&arg)?,
            "v" | "value" => options.value = args.enforce_next_value(&arg)?,
            "b" | "verbose" => options.verbose = true,
            other => return err(&format!("Unknown argument \"{other}\"")),
        }
        Ok(())
    }
}

impl Default for Options {
    fn default() -> Self {
        Self {
            name: String::new(),
            value: String::new(),
            verbose: false,
        }
    }
}

fn split(args_s: &str) -> Vec<String> {
    args_s.split(" ").map(|s| s.to_string()).collect()
}

#[test]
fn test() {
    let raw = split("-n Something -v TheValue");
    let mut options = Options::default();

    Arguments::with_args(&raw, &mut options, Options::extract).unwrap();

    assert_eq!("Something", options.name);

    assert_eq!("TheValue", options.value);

    assert!(!options.verbose);
}

#[test]
fn test_2() {
    let raw = split("-bn Something -v TheValue");
    let mut options = Options::default();

    Arguments::with_args(&raw, &mut options, Options::extract).unwrap();

    assert_eq!("Something", options.name);

    assert_eq!("TheValue", options.value);

    assert!(options.verbose);
}

#[test]
#[should_panic]
fn panic() {
    let raw = split("-n Something -v");
    let mut options = Options::default();

    Arguments::with_args(&raw, &mut options, Options::extract).unwrap();
}

#[test]
fn positions_contiguous_and_total_fixed() {
    let raw = split("-ab --name foo");
    let tokens = tokenize(&raw);
    assert_eq!(tokens.len(), 4);
    for (i, t) in tokens.iter().enumerate() {
        assert_eq!(t.position(), i);
        assert_eq!(t.max_position(), 4);
        assert_eq!(t.from_first(), i);
        assert_eq!(t.from_last(), 3 - i);
        assert_eq!(t.is_first(), i == 0);
        assert_eq!(t.is_last(), i == 3);
        assert!(t.is_n_from_first(i));
        assert!(t.is_n_from_last(3 - i));
    }
}

#[test]
fn cluster_expands_to_short_flags() {
    let raw = split("-abc");
    let tokens = tokenize(&raw);
    assert_eq!(tokens.len(), 3);
    let expected = ["a", "b", "c"];
    for (i, t) in tokens.iter().enumerate() {
        assert!(t.is_short());
        assert!(!t.is_long());
        assert!(!t.is_value());
        assert_eq!(t.qualifier(), expected[i]);
    }
}

#[test]
fn long_flag_is_one_token() {
    let raw = split("--name");
    let tokens = tokenize(&raw);
    assert_eq!(tokens.len(), 1);
    assert!(tokens[0].is_long());
    assert!(!tokens[0].is_short());
    assert!(!tokens[0].is_value());
    assert_eq!(tokens[0].qualifier(), "name");
}

#[test]
fn bare_string_is_one_value_token() {
    let raw = split("foo");
    let tokens = tokenize(&raw);
    assert_eq!(tokens.len(), 1);
    assert!(tokens[0].is_value());
    assert!(!tokens[0].is_short());
    assert!(!tokens[0].is_long());
    assert_eq!(tokens[0].qualifier(), "foo");
}

#[test]
fn lone_dash_yields_no_tokens() {
    let raw = split("-");
    let tokens = tokenize(&raw);
    assert_eq!(tokens.len(), 0);
}

#[test]
fn double_dash_is_long_flag_with_empty_qualifier() {
    let raw = split("--");
    let tokens = tokenize(&raw);
    assert_eq!(tokens.len(), 1);
    assert!(tokens[0].is_long());
    assert_eq!(tokens[0].qualifier(), "");
}

#[test]
fn display_round_trip_without_clustering() {
    let raw = split("--name foo -- bar");
    let tokens = tokenize(&raw);
    assert_eq!(tokens.len(), raw.len());
    for (i, t) in tokens.iter().enumerate() {
        assert_eq!(t.display_string(), raw[i]);
    }
}

#[test]
fn short_flag_display_has_one_dash() {
    let raw = split("-x");
    let tokens = tokenize(&raw);
    assert_eq!(tokens.len(), 1);
    assert_eq!(tokens[0].display_string(), "-x");
}

#[test]
fn missing_value_reports_flag_and_keeps_earlier_mutation() {
    let raw = split("-n Something -v");
    let mut options = Options::default();

    let res = Arguments::with_args(&raw, &mut options, Options::extract);

    let e = res.err().expect("driving should fail");
    assert_eq!(e.message(), "-v requires a value.");
    assert_eq!(options.name, "Something");
    assert_eq!(options.value, "");
}

#[test]
fn empty_input_succeeds_without_callback() {
    let raw: Vec<String> = Vec::new();
    let mut calls: usize = 0;
    let res = Arguments::with_args(&raw, &mut calls, |_args, count, _arg| {
        *count += 1;
        Ok(())
    });
    assert!(res.is_ok());
    assert_eq!(calls, 0);
}

#[test]
fn next_arg_walks_tokens_in_order() {
    let raw = split("-ab foo");
    let mut args = Arguments::from_raw(&raw);
    let first = args.next_arg().unwrap();
    assert!(first.is_short());
    assert_eq!(first.qualifier(), "a");
    let second = args.next_arg().unwrap();
    assert!(second.is_short());
    assert_eq!(second.qualifier(), "b");
    let third = args.next_arg().unwrap();
    assert!(third.is_value());
    assert_eq!(third.qualifier(), "foo");
    assert!(args.next_arg().is_none());
}

#[test]
fn enforce_next_value_returns_value_text() {
    let raw = split("-n Something");
    let mut args = Arguments::from_raw(&raw);
    let flag = args.next_arg().unwrap();
    let value = args.enforce_next_value(&flag).unwrap();
    assert_eq!(value, "Something");
    assert!(args.next_arg().is_none());
}

#[test]
fn enforce_next_value_rejects_flag_and_consumes_it() {
    let raw = split("--name -v");
    let mut args = Arguments::from_raw(&raw);
    let flag = args.next_arg().unwrap();
    let res = args.enforce_next_value(&flag);
    let e = res.err().expect("a flag is not a value");
    assert_eq!(e.message(), "--name requires a value.");
    assert!(args.next_arg().is_none());
}

#[test]
fn enforce_next_value_rejects_exhausted_cursor() {
    let raw = split("-v");
    let mut args = Arguments::from_raw(&raw);
    let flag = args.next_arg().unwrap();
    let res = args.enforce_next_value(&flag);
    let e = res.err().expect("nothing follows the flag");
    assert_eq!(e.message(), "-v requires a value.");
}

#[test]
fn err_builds_the_failure_arm() {
    let r: Result<(), ArgsError> = err("boom");
    let e = r.err().unwrap();
    assert_eq!(e.message(), "boom");
}

#[test]
fn callback_sees_every_token_in_order() {
    let raw = split("-abc --name foo");
    let mut seen: Vec<String> = Vec::new();
    let res = Arguments::with_args(&raw, &mut seen, |_args, seen, arg| {
        seen.push(arg.qualifier().to_string());
        Ok(())
    });
    assert!(res.is_ok());
    let expected: Vec<String> = ["a", "b", "c", "name", "foo"]
        .iter()
        .map(|s| s.to_string())
        .collect();
    assert_eq!(seen, expected);
}

#[test]
fn callback_failure_aborts_immediately() {
    let raw = split("a b c");
    let mut seen: Vec<String> = Vec::new();
    let res = Arguments::with_args(&raw, &mut seen, |_args, seen, arg| {
        if seen.len() == 1 {
            return err("stop");
        }
        seen.push(arg.qualifier().to_string());
        Ok(())
    });
    let e = res.err().expect("second call fails");
    assert_eq!(e.message(), "stop");
    assert_eq!(seen, vec!["a".to_string()]);
}

#[test]
fn option_type_classifies_tokens() {
    let raw = split("-s --long bare");
    let tokens = tokenize(&raw);
    assert!(matches!(
        tokens[0].option_type(),
        OptionType::Argument(ArgumentType::Short(q)) if q == "s"
    ));
    assert!(matches!(
        tokens[1].option_type(),
        OptionType::Argument(ArgumentType::Long(q)) if q == "long"
    ));
    assert!(matches!(tokens[2].option_type(), OptionType::Value(v) if v == "bare"));
}
