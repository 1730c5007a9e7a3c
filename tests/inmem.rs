use kvstore::connection::{format_response, respond, undecodable_response};
use kvstore::InMem;

#[test]
fn inmem_test() {
    let mut inmem = InMem::new();

    assert_eq!(
        inmem.execute("set lang rust"),
        Ok(String::from("Key 'lang' set to 'rust'"))
    );

    assert_eq!(inmem.execute("get lang"), Ok(String::from("rust")));

    assert_eq!(
        inmem.execute("set lang c"),
        Ok(String::from("Updated key 'lang' from 'rust' to 'c'"))
    );

    assert_eq!(
        inmem.execute("del lang"),
        Ok(String::from("Previous value: 'c'"))
    );

    assert_eq!(inmem.execute("get lang"), Err(String::from("None")));

    assert_eq!(
        inmem.execute("set \"programming language\" \"The Rust Programming Language\""),
        Ok(String::from(
            "Key 'programming language' set to 'The Rust Programming Language'"
        ))
    );
}

#[test]
fn set_then_get_returns_value() {
    let mut inmem = InMem::new();
    assert_eq!(
        inmem.execute("SET color blue"),
        Ok(String::from("Key 'color' set to 'blue'"))
    );
    assert_eq!(inmem.execute("GET color"), Ok(String::from("blue")));
}

#[test]
fn last_write_wins() {
    let mut inmem = InMem::new();
    assert!(inmem.execute("set k one").is_ok());
    assert_eq!(
        inmem.execute("set k two"),
        Ok(String::from("Updated key 'k' from 'one' to 'two'"))
    );
    assert_eq!(
        inmem.execute("set k three"),
        Ok(String::from("Updated key 'k' from 'two' to 'three'"))
    );
    assert_eq!(inmem.execute("get k"), Ok(String::from("three")));
}

#[test]
fn delete_removes_key() {
    let mut inmem = InMem::new();
    assert!(inmem.execute("set k v").is_ok());
    assert_eq!(
        inmem.execute("del k"),
        Ok(String::from("Previous value: 'v'"))
    );
    assert_eq!(inmem.execute("get k"), Err(String::from("None")));
    assert_eq!(inmem.execute("del k"), Err(String::from("None")));
}

#[test]
fn missing_key_is_not_found() {
    let mut inmem = InMem::new();
    assert_eq!(inmem.execute("get nothing"), Err(String::from("None")));
    assert_eq!(inmem.execute("del nothing"), Err(String::from("None")));
    assert_eq!(
        inmem.execute("set nothing now"),
        Ok(String::from("Key 'nothing' set to 'now'"))
    );
}

#[test]
fn quoted_arguments_keep_spaces() {
    let mut inmem = InMem::new();
    assert_eq!(
        inmem.execute("SET \"a b\" \"c d e\""),
        Ok(String::from("Key 'a b' set to 'c d e'"))
    );
    assert_eq!(inmem.execute("GET \"a b\""), Ok(String::from("c d e")));
    assert_eq!(inmem.execute("get a"), Err(String::from("None")));
}

#[test]
fn parse_errors_pass_through_and_change_nothing() {
    let mut inmem = InMem::new();
    assert!(inmem.execute("set k v").is_ok());
    assert_eq!(inmem.execute(""), Err(String::from("Command not provided")));
    assert_eq!(inmem.execute("put k w"), Err(String::from("Invalid command")));
    assert_eq!(inmem.execute("set k"), Err(String::from("Expected argument {value}")));
    assert_eq!(inmem.execute("set k \"w"), Err(String::from("Expected string termination")));
    assert_eq!(inmem.execute("set k w\"x"), Err(String::from("Unexpected string initializer")));
    assert_eq!(inmem.execute("get k v"), Err(String::from("Unexpected argument v")));
    assert_eq!(inmem.execute("get k"), Ok(String::from("v")));
}

#[test]
fn disjoint_keys_do_not_interfere() {
    let mut inmem = InMem::new();
    assert!(inmem.execute("set a 1").is_ok());
    assert!(inmem.execute("set b 2").is_ok());
    assert!(inmem.execute("del a").is_ok());
    assert!(inmem.execute("set c 3").is_ok());
    assert_eq!(inmem.execute("get b"), Ok(String::from("2")));
    assert_eq!(inmem.execute("get c"), Ok(String::from("3")));
    assert_eq!(inmem.execute("get a"), Err(String::from("None")));
}

#[test]
fn command_line_with_newline_is_trimmed() {
    let mut inmem = InMem::new();
    assert_eq!(
        inmem.execute("set lang rust\n"),
        Ok(String::from("Key 'lang' set to 'rust'"))
    );
    assert_eq!(inmem.execute("get lang\n"), Ok(String::from("rust")));
}

#[test]
fn end_to_end_responses() {
    let mut inmem = InMem::new();
    assert_eq!(respond(&mut inmem, "set lang rust"), "OK: Key 'lang' set to 'rust'\n");
    assert_eq!(respond(&mut inmem, "get lang"), "OK: rust\n");
    assert_eq!(
        respond(&mut inmem, "set lang c"),
        "OK: Updated key 'lang' from 'rust' to 'c'\n"
    );
    assert_eq!(respond(&mut inmem, "del lang"), "OK: Previous value: 'c'\n");
    assert_eq!(respond(&mut inmem, "get lang"), "ERR: None\n");
    assert_eq!(respond(&mut inmem, "frobnicate"), "ERR: Invalid command\n");
}

#[test]
fn format_response_marks_outcome() {
    assert_eq!(format_response(Ok(String::from("x y"))), "OK: x y\n");
    assert_eq!(format_response(Err(String::from(""))), "ERR: \n");
}

#[test]
fn undecodable_input_gets_an_error_line() {
    assert_eq!(undecodable_response(), "ERR: Invalid UTF-8\n");
}
