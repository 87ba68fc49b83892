use shelljougahara::commands::args::{
    parse_string_argument, ArgumentKind, BasicArgument, BasicArgumentKind,
};
use shelljougahara::commands::flags::{
    Flags, FlagDefinition, FlagDefinitionBuilder, FlagSpecification,
};
use shelljougahara::commands::args::Argument;

#[test]
fn test_parse_string_argument_string() {
    let r = parse_string_argument("hello", &ArgumentKind::Basic(BasicArgumentKind::String));
    assert_eq!(r, Ok(BasicArgument::String("hello".to_string())));
}

#[test]
fn test_parse_string_argument_integer() {
    let r = parse_string_argument("42", &ArgumentKind::Basic(BasicArgumentKind::Integer));
    assert_eq!(r, Ok(BasicArgument::Integer(42)));
    let r = parse_string_argument("-7", &ArgumentKind::Basic(BasicArgumentKind::Integer));
    assert_eq!(r, Ok(BasicArgument::Integer(-7)));
    let r = parse_string_argument("4x2", &ArgumentKind::Basic(BasicArgumentKind::Integer));
    assert!(r.is_err());
    let r = parse_string_argument("", &ArgumentKind::Basic(BasicArgumentKind::Integer));
    assert!(r.is_err());
}

#[test]
fn test_parse_string_argument_rejects_non_basic_kind() {
    let r = parse_string_argument("x", &ArgumentKind::Flag);
    assert_eq!(r, Err("Invalid argument kind: Flag".to_string()));
    let r = parse_string_argument("x", &ArgumentKind::Enumeration(BasicArgumentKind::String));
    assert_eq!(r, Err("Invalid argument kind: Enumeration".to_string()));
}

#[test]
fn test_flags_insert_and_lookup() {
    let mut flags = Flags::new();
    assert!(flags.flag("force").is_none());
    flags.insert("force", Argument::Flag);
    assert!(flags.flag("force").is_some());
    flags.insert("limit", Argument::Basic(BasicArgument::Integer(3)));
    assert_eq!(
        flags.flag("limit"),
        Some(&Argument::Basic(BasicArgument::Integer(3)))
    );
    // inserting again replaces the value
    flags.insert("limit", Argument::Basic(BasicArgument::Integer(5)));
    assert_eq!(
        flags.flag("limit"),
        Some(&Argument::Basic(BasicArgument::Integer(5)))
    );
    assert_eq!(flags.flags().len(), 2);
}

#[test]
fn test_flag_definition_lookup() {
    let def = FlagDefinitionBuilder::new()
        .with_flag(FlagSpecification::new("force", Some('f'), false, ArgumentKind::Flag))
        .with_flag(FlagSpecification::new(
            "recursive",
            Some('r'),
            false,
            ArgumentKind::Flag,
        ))
        .into_flag_definition();
    assert!(def.get_flag_longhand("force").is_some());
    assert!(def.get_flag_longhand("quiet").is_none());
    let short = def.get_flag_shorthand('r').expect("Missing shorthand");
    assert_eq!(short.name, "recursive");
    assert!(def.get_flag_shorthand('q').is_none());
}

#[test]
fn test_flag_definition_builder_dedup() {
    let def = FlagDefinitionBuilder::new()
        .with_flag(FlagSpecification::new("force", Some('f'), false, ArgumentKind::Flag))
        .with_flag(FlagSpecification::new("force", Some('f'), false, ArgumentKind::Flag))
        .into_flag_definition();
    assert_eq!(def.into_flags().len(), 1);
}

#[test]
fn test_flag_definition_new() {
    let def = FlagDefinition::new(vec![FlagSpecification::new(
        "l",
        Some('l'),
        false,
        ArgumentKind::Flag,
    )]);
    assert!(def.get_flag_longhand("l").is_some());
}
