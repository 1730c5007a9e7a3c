use kvstore::{parse, Command};

#[test]
fn parses_basic_get_command() {
    assert_eq!(
        parse("get some_key"),
        Ok(Command::Get(String::from("some_key")))
    );

    assert_eq!(
        parse("     GET          some_key       "),
        Ok(Command::Get(String::from("some_key")))
    );
}

#[test]
fn parses_get_command_with_string() {
    assert_eq!(
        parse("get \"some key\""),
        Ok(Command::Get(String::from("some key")))
    );

    assert_eq!(
        parse("get \"some    key  with spaces\""),
        Ok(Command::Get(String::from("some    key  with spaces")))
    );

    assert_eq!(
        parse("     GET          \"some key\"       "),
        Ok(Command::Get(String::from("some key")))
    );
}

#[test]
fn returns_error_for_malformed_get_commands() {
    assert_eq!(
        parse("get \"some key"),
        Err(String::from("Expected string termination"))
    );

    assert_eq!(
        parse("get som\"e"),
        Err(String::from("Unexpected string initializer"))
    );

    assert_eq!(parse("get "), Err(String::from("Expected argument {key}")));

    assert_eq!(
        parse("get some_key some_value"),
        Err(String::from("Unexpected argument some_value"))
    );
}

#[test]
fn returns_error_for_unknown_commands() {
    assert_eq!(parse(""), Err(String::from("Command not provided")));

    assert_eq!(parse("     "), Err(String::from("Command not provided")));

    assert_eq!(parse("unknown"), Err(String::from("Invalid command")));

    assert_eq!(
        parse("unknown some_key"),
        Err(String::from("Invalid command"))
    );
}

#[test]
fn parses_basic_set_command() {
    assert_eq!(
        parse("set some_key some_value"),
        Ok(Command::Put(
            String::from("some_key"),
            String::from("some_value")
        ))
    );

    assert_eq!(
        parse("     SET          some_key    some_value   "),
        Ok(Command::Put(
            String::from("some_key"),
            String::from("some_value")
        ))
    );
}

#[test]
fn parses_set_command_with_string() {
    assert_eq!(
        parse("set \"some key\" \"some value\""),
        Ok(Command::Put(
            String::from("some key"),
            String::from("some value")
        ))
    );

    assert_eq!(
        parse("SET    \"some key\"       \"some value\""),
        Ok(Command::Put(
            String::from("some key"),
            String::from("some value")
        ))
    );

    assert_eq!(
        parse("set \"some    key  with spaces\" \" some value with   spaces\"   "),
        Ok(Command::Put(
            String::from("some    key  with spaces"),
            String::from(" some value with   spaces")
        ))
    );
}

#[test]
fn returns_error_for_malformed_set_commands() {
    assert_eq!(
        parse("set \"some key"),
        Err(String::from("Expected string termination"))
    );

    assert_eq!(
        parse("set \"some key\" \"some value  "),
        Err(String::from("Expected string termination"))
    );

    assert_eq!(
        parse("set som\"e"),
        Err(String::from("Unexpected string initializer"))
    );

    assert_eq!(
        parse("set some_key some\"value"),
        Err(String::from("Unexpected string initializer"))
    );

    assert_eq!(parse("set"), Err(String::from("Expected argument {key}")));

    assert_eq!(
        parse("set \"some key\""),
        Err(String::from("Expected argument {value}"))
    );
}

#[test]
fn parses_basic_del_command() {
    assert_eq!(
        parse("del some_key"),
        Ok(Command::Del(String::from("some_key")))
    );
}

#[test]
fn del_takes_exactly_one_key() {
    assert_eq!(parse("DeL"), Err(String::from("Expected argument {key}")));
    assert_eq!(
        parse("del a b"),
        Err(String::from("Unexpected argument b"))
    );
}

#[test]
fn set_rejects_a_third_argument() {
    assert_eq!(
        parse("set k v extra"),
        Err(String::from("Unexpected argument extra"))
    );
}

#[test]
fn trims_line_breaks_and_tabs() {
    assert_eq!(
        parse("\tget key\r\n"),
        Ok(Command::Get(String::from("key")))
    );
}

#[test]
fn tab_does_not_separate_tokens() {
    assert_eq!(parse("get\tkey"), Err(String::from("Invalid command")));
}

#[test]
fn empty_quoted_token_is_kept() {
    assert_eq!(
        parse("set k \"\""),
        Ok(Command::Put(String::from("k"), String::from("")))
    );
}

#[test]
fn text_after_closing_quote_is_its_own_token() {
    assert_eq!(
        parse("get \"a\"xb"),
        Err(String::from("Unexpected argument xb"))
    );
    assert_eq!(
        parse("get \"a\"b"),
        Err(String::from("Unexpected argument b"))
    );
    assert_eq!(
        parse("set \"k\"v"),
        Ok(Command::Put(String::from("k"), String::from("v")))
    );
    assert_eq!(
        parse("set \"k\"\"v w\""),
        Ok(Command::Put(String::from("k"), String::from("v w")))
    );
}

#[test]
fn non_ascii_characters_are_kept() {
    assert_eq!(
        parse("set clé \"vœu ü\""),
        Ok(Command::Put(String::from("clé"), String::from("vœu ü")))
    );
}

#[test]
fn verb_must_match_whole_word() {
    assert_eq!(parse("gets k"), Err(String::from("Invalid command")));
    assert_eq!(parse("ge k"), Err(String::from("Invalid command")));
}

#[test]
fn command_from_str_parses() {
    let c: Result<Command, String> = "del k".parse();
    assert_eq!(c, Ok(Command::Del(String::from("k"))));
}
