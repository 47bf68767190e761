use bem::{parse, BEMBlock, BEMElement};

#[test]
fn test_parse_block() {
    let input = "foo";
    let result = parse(input);

    assert!(result.is_ok());

    let bem_block = result.unwrap();

    assert_eq!(
        bem_block,
        BEMBlock { name: "foo".to_string(), modifiers: vec![], elements: vec![] }
    );
}

#[test]
fn test_parse_block_with_dashes() {
    let input = "foo-bar-baz";
    let result = parse(input);

    assert!(result.is_ok());

    let bem_block = result.unwrap();

    assert_eq!(
        bem_block,
        BEMBlock { name: "foo-bar-baz".to_string(), modifiers: vec![], elements: vec![] }
    );
}

#[test]
fn test_parse_block_with_modifier() {
    let input = "foo[bar]";
    let result = parse(input);

    assert!(result.is_ok());

    let bem_block = result.unwrap();

    assert_eq!(
        bem_block,
        BEMBlock {
            name: "foo".to_string(),
            modifiers: vec!["bar".to_string()],
            elements: vec![],
        }
    );
}

#[test]
fn test_parse_block_with_modifier_with_dashes() {
    let input = "foo[bar-baz-qux]";
    let result = parse(input);

    assert!(result.is_ok());

    let bem_block = result.unwrap();

    assert_eq!(
        bem_block,
        BEMBlock {
            name: "foo".to_string(),
            modifiers: vec!["bar-baz-qux".to_string()],
            elements: vec![],
        }
    );
}

#[test]
fn test_parse_block_with_modifiers() {
    let input = "foo[bar,baz,qux]";
    let result = parse(input);

    assert!(result.is_ok());

    let bem_block = result.unwrap();

    assert_eq!(
        bem_block,
        BEMBlock {
            name: "foo".to_string(),
            modifiers: vec!["bar".to_string(), "baz".to_string(), "qux".to_string()],
            elements: vec![],
        }
    );
}

#[test]
fn test_parse_block_with_modifiers_and_spaces() {
    let input = "foo[  bar  ,  baz  ]";
    let result = parse(input);

    assert!(result.is_ok());

    let bem_block = result.unwrap();

    assert_eq!(
        bem_block,
        BEMBlock {
            name: "foo".to_string(),
            modifiers: vec!["bar".to_string(), "baz".to_string()],
            elements: vec![],
        }
    );
}

#[test]
fn test_parse_block_with_modifiers_and_newlines_and_tabs() {
    let input = "foo[\n\tbar,\n\tbaz]";
    let result = parse(input);

    assert!(result.is_ok());

    let bem_block = result.unwrap();

    assert_eq!(
        bem_block,
        BEMBlock {
            name: "foo".to_string(),
            modifiers: vec!["bar".to_string(), "baz".to_string()],
            elements: vec![],
        }
    );
}

#[test]
fn test_parse_block_with_modifiers_and_trailing_commas() {
    let input = "foo[bar,baz,]";
    let result = parse(input);

    assert!(result.is_ok());

    let bem_block = result.unwrap();

    assert_eq!(
        bem_block,
        BEMBlock {
            name: "foo".to_string(),
            modifiers: vec!["bar".to_string(), "baz".to_string()],
            elements: vec![],
        }
    );
}

#[test]
fn test_parse_block_with_parentheses() {
    let input = "foo(bar,baz)";
    let result = parse(input);

    assert!(result.is_err());
}

#[test]
fn test_parse_element() {
    let input = "foo\nbar";
    let result = parse(input);

    assert!(result.is_ok());

    let bem_block = result.unwrap();

    assert_eq!(
        bem_block,
        BEMBlock {
            name: "foo".to_string(),
            modifiers: vec![],
            elements: vec![BEMElement { name: "bar".to_string(), modifiers: vec![] }],
        }
    );
}

#[test]
fn test_parse_element_with_dashes() {
    let input = "foo\nbar-baz-qux";
    let result = parse(input);

    assert!(result.is_ok());

    let bem_block = result.unwrap();

    assert_eq!(
        bem_block,
        BEMBlock {
            name: "foo".to_string(),
            modifiers: vec![],
            elements: vec![BEMElement { name: "bar-baz-qux".to_string(), modifiers: vec![] }],
        }
    );
}

#[test]
fn test_parse_element_with_modifier() {
    let input = "foo\nbar[baz]";
    let result = parse(input);

    assert!(result.is_ok());

    let bem_block = result.unwrap();

    assert_eq!(
        bem_block,
        BEMBlock {
            name: "foo".to_string(),
            modifiers: vec![],
            elements: vec![BEMElement {
                name: "bar".to_string(),
                modifiers: vec!["baz".to_string()],
            }],
        }
    );
}

#[test]
fn test_parse_element_with_modifiers() {
    let input = "foo\nbar[baz,qux]";
    let result = parse(input);

    assert!(result.is_ok());

    let bem_block = result.unwrap();

    assert_eq!(
        bem_block,
        BEMBlock {
            name: "foo".to_string(),
            modifiers: vec![],
            elements: vec![BEMElement {
                name: "bar".to_string(),
                modifiers: vec!["baz".to_string(), "qux".to_string()],
            }],
        }
    );
}

#[test]
fn test_parse_element_with_modifiers_and_spaces() {
    let input = "foo\nbar[  baz  ,  qux  ]";
    let result = parse(input);

    assert!(result.is_ok());

    let bem_block = result.unwrap();

    assert_eq!(
        bem_block,
        BEMBlock {
            name: "foo".to_string(),
            modifiers: vec![],
            elements: vec![BEMElement {
                name: "bar".to_string(),
                modifiers: vec!["baz".to_string(), "qux".to_string()],
            }],
        }
    );
}

#[test]
fn test_parse_element_with_modifiers_and_newlines_and_tabs() {
    let input = "foo\nbar[\n\tbaz,\n\tqux]";
    let result = parse(input);

    assert!(result.is_ok());

    let bem_block = result.unwrap();

    assert_eq!(
        bem_block,
        BEMBlock {
            name: "foo".to_string(),
            modifiers: vec![],
            elements: vec![BEMElement {
                name: "bar".to_string(),
                modifiers: vec!["baz".to_string(), "qux".to_string()],
            }],
        }
    );
}

#[test]
fn test_parse_element_with_modifiers_and_trailing_commas() {
    let input = "foo\nbar[baz,qux,]";
    let result = parse(input);

    assert!(result.is_ok());

    let bem_block = result.unwrap();

    assert_eq!(
        bem_block,
        BEMBlock {
            name: "foo".to_string(),
            modifiers: vec![],
            elements: vec![BEMElement {
                name: "bar".to_string(),
                modifiers: vec!["baz".to_string(), "qux".to_string()],
            }],
        }
    );
}

#[test]
fn test_parse_element_with_parentheses() {
    let input = "foo\nbar(baz,qux)";
    let result = parse(input);

    assert!(result.is_err());
}

#[test]
fn test_parse_elements() {
    let input = "foo\nbar\nbaz\nqux";
    let result = parse(input);

    assert!(result.is_ok());

    let bem_block = result.unwrap();

    assert_eq!(
        bem_block,
        BEMBlock {
            name: "foo".to_string(),
            modifiers: vec![],
            elements: vec![
                BEMElement { name: "bar".to_string(), modifiers: vec![] },
                BEMElement { name: "baz".to_string(), modifiers: vec![] },
                BEMElement { name: "qux".to_string(), modifiers: vec![] },
            ],
        }
    );
}

#[test]
fn test_parse_block_modifiers_and_element_modifiers() {
    let input = "a[b,c]\nd[e,f]\ng\nh[i]";
    let result = parse(input);

    assert!(result.is_ok());

    let bem_block = result.unwrap();

    assert_eq!(
        bem_block,
        BEMBlock {
            name: "a".to_string(),
            modifiers: vec!["b".to_string(), "c".to_string()],
            elements: vec![
                BEMElement {
                    name: "d".to_string(),
                    modifiers: vec!["e".to_string(), "f".to_string()],
                },
                BEMElement { name: "g".to_string(), modifiers: vec![] },
                BEMElement { name: "h".to_string(), modifiers: vec!["i".to_string()] },
            ],
        }
    );
}

#[test]
fn test_parse_final_newlines() {
    let input = "foo\n\n\n";
    let result = parse(input);

    assert!(result.is_ok());

    let bem_block = result.unwrap();

    assert_eq!(
        bem_block,
        BEMBlock { name: "foo".to_string(), modifiers: vec![], elements: vec![] }
    );
}

#[test]
fn test_parse_empty_modifier_list() {
    let result = parse("foo[]");

    assert!(result.is_ok());
    assert_eq!(
        result.unwrap(),
        BEMBlock { name: "foo".to_string(), modifiers: vec![], elements: vec![] }
    );
}

#[test]
fn test_parse_blank_line_between_elements() {
    let result = parse("foo\n\nbar");

    assert!(result.is_ok());
    assert_eq!(
        result.unwrap(),
        BEMBlock {
            name: "foo".to_string(),
            modifiers: vec![],
            elements: vec![BEMElement { name: "bar".to_string(), modifiers: vec![] }],
        }
    );
}

#[test]
fn test_parse_empty_input() {
    assert!(parse("").is_err());
}

#[test]
fn test_parse_unterminated_modifier_list() {
    assert!(parse("foo[bar").is_err());
}

#[test]
fn test_parse_space_outside_brackets() {
    assert!(parse("foo bar").is_err());
}

#[test]
fn test_parse_empty_modifier_entry() {
    assert!(parse("foo[,]").is_err());
    assert!(parse("foo[bar,,baz]").is_err());
}

#[test]
fn test_parse_whitespace_only_modifier_list() {
    assert!(parse("foo[ ]").is_err());
    assert!(parse("foo[bar, ]").is_err());
}

#[test]
fn test_parse_bare_name() {
    assert_eq!(
        parse("name").unwrap(),
        BEMBlock { name: "name".to_string(), modifiers: vec![], elements: vec![] }
    );
}

#[test]
fn test_parse_two_modifiers_in_order() {
    assert_eq!(
        parse("foo[bar,baz]").unwrap(),
        BEMBlock {
            name: "foo".to_string(),
            modifiers: vec!["bar".to_string(), "baz".to_string()],
            elements: vec![],
        }
    );
}

#[test]
fn test_parse_single_spaces_around_modifiers() {
    assert_eq!(
        parse("foo[ bar , baz ]").unwrap(),
        BEMBlock {
            name: "foo".to_string(),
            modifiers: vec!["bar".to_string(), "baz".to_string()],
            elements: vec![],
        }
    );
}

#[test]
fn test_parse_single_parenthesized_modifier() {
    assert!(parse("foo(bar)").is_err());
}

#[test]
fn test_parse_two_bare_elements() {
    assert_eq!(
        parse("foo\nbar\nbaz").unwrap(),
        BEMBlock {
            name: "foo".to_string(),
            modifiers: vec![],
            elements: vec![
                BEMElement { name: "bar".to_string(), modifiers: vec![] },
                BEMElement { name: "baz".to_string(), modifiers: vec![] },
            ],
        }
    );
}

#[test]
fn test_parse_error_message_names_position() {
    let message = parse("foo(bar)").unwrap_err();

    assert!(message.contains("syntax error at character 3"));
}
