use ldscript::evaluate_expression;
use ldscript::expression;
use ldscript::parse;
use ldscript::EvalError;
use ldscript::ParseError;
use ldscript::ParseState;
use ldscript::RootItem;

#[test]
fn test_empty() {
    assert_eq!(parse("").unwrap().len(), 0);
    assert_eq!(parse("                               ").unwrap().len(), 0);
    assert_eq!(parse("      /* hello */              ").unwrap().len(), 0);
}

#[test]
fn test_bootloader() {
    let input = "\
/* a small bootloader layout */
MEMORY
{
    rom : ORIGIN = 0x7c00, LENGTH = 512
    ram : ORIGIN = 0x500, LENGTH = 0x7b00
}

SECTIONS
{
    boot : { bootsector }
    text : { program }
}

ENTRY(start)
";
    let res = parse(input);
    assert!(!res.unwrap().is_empty());
}

#[test]
fn parsed_items_in_order() {
    let input = "A = 11;\nMEMORY { AA : ORIGIN = 66, LENGTH = 12 }\nENTRY(start)\n";
    let items = parse(input).unwrap();
    assert_eq!(items.len(), 3);
    match &items[0] {
        RootItem::Statement(_) => {}
        other => panic!("expected a statement, got {:?}", other),
    }
    match &items[1] {
        RootItem::Memory { regions } => {
            assert_eq!(regions.len(), 1);
            assert_eq!(regions[0].name, "AA");
            assert_eq!(regions[0].origin, 66);
            assert_eq!(regions[0].length, 12);
        }
        other => panic!("expected a memory block, got {:?}", other),
    }
    match &items[2] {
        RootItem::Command(c) => {
            assert_eq!(c.name, "ENTRY");
            assert_eq!(c.arguments, vec!["start".to_string()]);
        }
        other => panic!("expected a command, got {:?}", other),
    }
}

#[test]
fn sections_entries_are_collected() {
    let items = parse("SECTIONS {\n    boot : { bootsector }\n    text : { program }\n}").unwrap();
    assert_eq!(items.len(), 1);
    match &items[0] {
        RootItem::Sections { list } => {
            assert_eq!(list.len(), 2);
            assert_eq!(list[0].name, "boot");
            assert_eq!(list[0].body, " bootsector ");
            assert_eq!(list[1].name, "text");
        }
        other => panic!("expected a sections block, got {:?}", other),
    }
}

#[test]
fn assignments_feed_evaluation() {
    let items = parse("A = 11;").unwrap();
    let state = ParseState { items };
    let (e, _) = expression("A * 2", 0).unwrap();
    assert_eq!(evaluate_expression(&state, e), Ok(22));

    let items = parse("A = 11;\nB = 2 + 4;").unwrap();
    let state = ParseState { items };
    let (e, _) = expression("A * B", 0).unwrap();
    assert_eq!(evaluate_expression(&state, e), Ok(66));
}

#[test]
fn regions_feed_builtin_queries() {
    let items = parse("MEMORY { AA : ORIGIN = 66, LENGTH = 12 }").unwrap();
    let state = ParseState { items };
    let (e, _) = expression("ORIGIN(AA)", 0).unwrap();
    assert_eq!(evaluate_expression(&state, e), Ok(66));
    let (e, _) = expression("LENGTH(AA)", 0).unwrap();
    assert_eq!(evaluate_expression(&state, e), Ok(12));
    let (e, _) = expression("ORIGIN(BB)", 0).unwrap();
    assert_eq!(
        evaluate_expression(&state, e),
        Err(EvalError::VariableNotFound("BB".to_string()))
    );
}

#[test]
fn sequential_parses_are_isolated() {
    let first = parse("A = 1;").unwrap();
    assert_eq!(first.len(), 1);
    let second = parse("").unwrap();
    assert_eq!(second.len(), 0);
    let third = parse("B = 2;").unwrap();
    assert_eq!(third.len(), 1);
    match &third[0] {
        RootItem::Statement(_) => {}
        other => panic!("expected a statement, got {:?}", other),
    }
}

#[test]
fn unclosed_memory_block_fails_the_parse() {
    assert!(matches!(parse("MEMORY {"), Err(ParseError::UnclosedBlock(_))));
    assert!(matches!(
        parse("MEMORY { rom : ORIGIN = 1, LENGTH = 2"),
        Err(ParseError::UnclosedBlock(_))
    ));
}

#[test]
fn unclosed_sections_block_fails_the_parse() {
    assert!(matches!(parse("SECTIONS {"), Err(ParseError::UnclosedBlock(_))));
    assert!(matches!(
        parse("SECTIONS { boot : { bootsector "),
        Err(ParseError::UnclosedBlock(_))
    ));
}

#[test]
fn malformed_block_entry_fails_the_parse() {
    // a genuine syntax error inside an entry must abort the whole parse,
    // not truncate it to the well-formed prefix
    assert!(parse("MEMORY { rom : ORIGIN = , LENGTH = 2 }").is_err());
}

#[test]
fn trailing_unmatched_content_is_ignored() {
    let items = parse("A = 1; @@@").unwrap();
    assert_eq!(items.len(), 1);
}

#[test]
fn comments_between_items_are_skipped() {
    let items = parse("A = 1; /* one */ B = 2; /* two */").unwrap();
    assert_eq!(items.len(), 2);
}

#[test]
fn memory_block_collects_regions_in_order() {
    let items =
        parse("MEMORY {\n    rom : ORIGIN = 0x0, LENGTH = 4k\n    ram : ORIGIN = 4k, LENGTH = 8k\n}")
            .unwrap();
    assert_eq!(items.len(), 1);
    match &items[0] {
        RootItem::Memory { regions } => {
            assert_eq!(regions.len(), 2);
            assert_eq!(regions[0].name, "rom");
            assert_eq!(regions[0].origin, 0);
            assert_eq!(regions[0].length, 4096);
            assert_eq!(regions[1].name, "ram");
            assert_eq!(regions[1].origin, 4096);
            assert_eq!(regions[1].length, 8192);
        }
        other => panic!("expected a memory block, got {:?}", other),
    }
}

#[test]
fn command_collects_arguments() {
    let items = parse("INPUT(first, second third)").unwrap();
    assert_eq!(items.len(), 1);
    match &items[0] {
        RootItem::Command(c) => {
            assert_eq!(c.name, "INPUT");
            assert_eq!(
                c.arguments,
                vec!["first".to_string(), "second".to_string(), "third".to_string()]
            );
        }
        other => panic!("expected a command, got {:?}", other),
    }
}

#[test]
fn nested_parentheses_evaluate() {
    let state = ParseState { items: Vec::new() };
    let (e, _) = expression("((2 + 3) * (4 - 1))", 0).unwrap();
    assert_eq!(evaluate_expression(&state, e), Ok(15));
}

#[test]
fn precedence_binds_products_tighter() {
    let state = ParseState { items: Vec::new() };
    let (e, _) = expression("2 + 3 * 4", 0).unwrap();
    assert_eq!(evaluate_expression(&state, e), Ok(14));
    let (e, _) = expression("20 - 12 / 4", 0).unwrap();
    assert_eq!(evaluate_expression(&state, e), Ok(17));
}
