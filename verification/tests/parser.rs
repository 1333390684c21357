use rfc2253::{ParseError, Parser};

fn chars(text: &str) -> Vec<char> {
    text.chars().collect()
}

#[test]
fn cursor_starts_at_the_first_character() {
    let input = chars("ab");
    let parser = Parser::new_with_input(&input);
    assert_eq!(parser.state.get(), Some('a'));
    assert_eq!(parser.state.get(), Some('a'));
    assert!(!parser.state.eof());
}

#[test]
fn cursor_moves_one_character_at_a_time() {
    let input = chars("a\u{732b}b");
    let mut parser = Parser::new_with_input(&input);
    parser.state.consume();
    assert_eq!(parser.state.get(), Some('\u{732b}'));
    parser.state.consume();
    assert_eq!(parser.state.get(), Some('b'));
    assert!(!parser.state.eof());
    parser.state.consume();
    assert_eq!(parser.state.get(), None);
    assert!(parser.state.eof());
}

#[test]
fn cursor_stays_at_the_end() {
    let input = chars("a");
    let mut parser = Parser::new_with_input(&input);
    parser.state.consume();
    parser.state.consume();
    parser.state.consume();
    assert_eq!(parser.state.get(), None);
    assert!(parser.state.eof());
}

#[test]
fn cursor_over_empty_input() {
    let input = chars("");
    let mut parser = Parser::new_with_input(&input);
    assert_eq!(parser.state.get(), None);
    assert!(parser.state.eof());
    parser.state.consume();
    assert!(parser.state.eof());
}

#[test]
fn attributes_of_the_whole_input() {
    let input = chars("C=DE,L=Berlin+C=FR");
    let mut parser = Parser::new_with_input(&input);
    let map = parser.parse_attributes().unwrap();
    assert_eq!(map.len(), 2);
    assert_eq!(map.get("C").unwrap(), "FR");
    assert_eq!(map.get("L").unwrap(), "Berlin");
    assert!(parser.state.eof());
}

#[test]
fn attributes_from_the_middle() {
    let input = chars("C=DE,L=Berlin");
    let mut parser = Parser::new_with_input(&input);
    parser.parse_attribute().unwrap();
    parser.state.consume();
    let map = parser.parse_attributes().unwrap();
    assert_eq!(map.len(), 1);
    assert_eq!(map.get("L").unwrap(), "Berlin");
    assert!(parser.state.eof());
}

#[test]
fn attributes_stop_at_the_malformed_separator() {
    let input = chars("C=DE;L=Berlin");
    let mut parser = Parser::new_with_input(&input);
    assert_eq!(parser.parse_attributes().unwrap_err(), ParseError);
    assert_eq!(parser.state.get(), Some(';'));
}

#[test]
fn attributes_at_the_end_are_empty() {
    let input = chars("");
    let mut parser = Parser::new_with_input(&input);
    assert_eq!(parser.parse_attributes().unwrap().len(), 0);
}

#[test]
fn attribute_is_type_and_value() {
    let input = chars("CN=Nyan Cat,C=DE");
    let mut parser = Parser::new_with_input(&input);
    let pair = parser.parse_attribute().unwrap();
    assert_eq!(pair, Some(("CN".to_string(), "Nyan Cat".to_string())));
    assert_eq!(parser.state.get(), Some(','));
}

#[test]
fn attribute_needs_the_equals_sign() {
    let input = chars("CN,C=DE");
    let mut parser = Parser::new_with_input(&input);
    assert_eq!(parser.parse_attribute(), Err(ParseError));
    assert_eq!(parser.state.get(), Some(','));
    let input = chars("CN");
    let mut parser = Parser::new_with_input(&input);
    assert_eq!(parser.parse_attribute(), Err(ParseError));
    assert!(parser.state.eof());
}

#[test]
fn attribute_with_malformed_value() {
    let input = chars("CN=a\"b");
    let mut parser = Parser::new_with_input(&input);
    assert_eq!(parser.parse_attribute(), Err(ParseError));
    assert_eq!(parser.state.get(), Some('"'));
}

#[test]
fn attribute_type_dispatches_on_the_first_character() {
    let input = chars("a1-.=");
    let mut parser = Parser::new_with_input(&input);
    assert_eq!(parser.parse_attribute_type(), Ok("a1-".to_string()));
    assert_eq!(parser.state.get(), Some('.'));
    let input = chars("1.2a=");
    let mut parser = Parser::new_with_input(&input);
    assert_eq!(parser.parse_attribute_type(), Ok("1.2".to_string()));
    assert_eq!(parser.state.get(), Some('a'));
}

#[test]
fn attribute_type_fails_on_other_characters() {
    let input = chars("-a");
    let mut parser = Parser::new_with_input(&input);
    assert_eq!(parser.parse_attribute_type(), Err(ParseError));
    assert_eq!(parser.state.get(), Some('-'));
    let input = chars("");
    let mut parser = Parser::new_with_input(&input);
    assert_eq!(parser.parse_attribute_type(), Err(ParseError));
}

#[test]
fn attribute_type_may_end_the_input() {
    let input = chars("CN");
    let mut parser = Parser::new_with_input(&input);
    assert_eq!(parser.parse_attribute_type(), Ok("CN".to_string()));
    assert!(parser.state.eof());
    let input = chars("2.5");
    let mut parser = Parser::new_with_input(&input);
    assert_eq!(parser.parse_attribute_type(), Ok("2.5".to_string()));
    assert!(parser.state.eof());
}

#[test]
fn keychar_run_may_be_empty() {
    let input = chars("=x");
    let mut parser = Parser::new_with_input(&input);
    assert_eq!(parser.parse_attribute_type_keychar(), Ok(String::new()));
    assert_eq!(parser.state.get(), Some('='));
    let input = chars("-9z=");
    let mut parser = Parser::new_with_input(&input);
    assert_eq!(parser.parse_attribute_type_keychar(), Ok("-9z".to_string()));
}

#[test]
fn oid_run_may_be_empty() {
    let input = chars("a");
    let mut parser = Parser::new_with_input(&input);
    assert_eq!(parser.parse_attribute_type_oid(), Ok(String::new()));
    assert_eq!(parser.state.get(), Some('a'));
    let input = chars("..1-");
    let mut parser = Parser::new_with_input(&input);
    assert_eq!(parser.parse_attribute_type_oid(), Ok("..1".to_string()));
    assert_eq!(parser.state.get(), Some('-'));
}

#[test]
fn value_dispatches_on_the_first_character() {
    let input = chars("\"a,b\",");
    let mut parser = Parser::new_with_input(&input);
    assert_eq!(parser.parse_attribute_value(), Ok("a,b".to_string()));
    assert_eq!(parser.state.get(), Some(','));
    let input = chars("#4142");
    let mut parser = Parser::new_with_input(&input);
    assert_eq!(parser.parse_string(), Ok("AB".to_string()));
    let input = chars("ab,c");
    let mut parser = Parser::new_with_input(&input);
    assert_eq!(parser.parse_string(), Ok("ab".to_string()));
    assert_eq!(parser.state.get(), Some(','));
}

#[test]
fn value_at_the_end_is_empty() {
    let input = chars("");
    let mut parser = Parser::new_with_input(&input);
    assert_eq!(parser.parse_string(), Ok(String::new()));
    let mut parser = Parser::new_with_input(&input);
    assert_eq!(parser.parse_attribute_value(), Ok(String::new()));
}

#[test]
fn simple_string_ends_at_each_special_character() {
    for special in [',', '=', '+', '<', '>', '#', ';'] {
        let mut input = chars("a b");
        input.push(special);
        input.push('c');
        let mut parser = Parser::new_with_input(&input);
        assert_eq!(parser.parse_string_simple(), Ok("a b".to_string()));
        assert_eq!(parser.state.get(), Some(special));
    }
}

#[test]
fn simple_string_fails_at_a_quotation_mark() {
    let input = chars("ab\"c");
    let mut parser = Parser::new_with_input(&input);
    assert_eq!(parser.parse_string_simple(), Err(ParseError));
    assert_eq!(parser.state.get(), Some('"'));
}

#[test]
fn simple_string_decodes_escapes() {
    let input = chars("a\\,b\\41\\\\;x");
    let mut parser = Parser::new_with_input(&input);
    assert_eq!(parser.parse_string_simple(), Ok("a,bA\\".to_string()));
    assert_eq!(parser.state.get(), Some(';'));
}

#[test]
fn quoted_string_ends_after_the_closing_mark() {
    let input = chars("\"a=b;c\"x");
    let mut parser = Parser::new_with_input(&input);
    assert_eq!(parser.parse_string_quoted(), Ok("a=b;c".to_string()));
    assert_eq!(parser.state.get(), Some('x'));
    let input = chars("\"\"");
    let mut parser = Parser::new_with_input(&input);
    assert_eq!(parser.parse_string_quoted(), Ok(String::new()));
    assert!(parser.state.eof());
}

#[test]
fn quoted_string_needs_both_marks() {
    let input = chars("a\"");
    let mut parser = Parser::new_with_input(&input);
    assert_eq!(parser.parse_string_quoted(), Err(ParseError));
    assert_eq!(parser.state.get(), Some('a'));
    let input = chars("\"abc");
    let mut parser = Parser::new_with_input(&input);
    assert_eq!(parser.parse_string_quoted(), Err(ParseError));
    assert!(parser.state.eof());
    let input = chars("");
    let mut parser = Parser::new_with_input(&input);
    assert_eq!(parser.parse_string_quoted(), Err(ParseError));
}

#[test]
fn quoted_string_decodes_escapes() {
    let input = chars("\"a\\\"b\\3Fc\"");
    let mut parser = Parser::new_with_input(&input);
    assert_eq!(parser.parse_string_quoted(), Ok("a\"b?c".to_string()));
    assert!(parser.state.eof());
}

#[test]
fn escape_sequence_of_a_delimiter() {
    for c in [',', '=', '+', '<', '>', '#', ';', '"', '\\'] {
        let input = vec!['\\', c, 'x'];
        let mut parser = Parser::new_with_input(&input);
        assert_eq!(parser.parse_escape_sequence(), Ok(c.to_string()));
        assert_eq!(parser.state.get(), Some('x'));
    }
}

#[test]
fn escape_sequence_of_a_hex_pair() {
    let input = chars("\\21x");
    let mut parser = Parser::new_with_input(&input);
    assert_eq!(parser.parse_escape_sequence(), Ok("!".to_string()));
    assert_eq!(parser.state.get(), Some('x'));
}

#[test]
fn escape_sequence_fails() {
    let input = chars("a\\,");
    let mut parser = Parser::new_with_input(&input);
    assert_eq!(parser.parse_escape_sequence(), Err(ParseError));
    assert_eq!(parser.state.get(), Some('a'));
    let input = chars("\\zx");
    let mut parser = Parser::new_with_input(&input);
    assert_eq!(parser.parse_escape_sequence(), Err(ParseError));
    assert_eq!(parser.state.get(), Some('z'));
    let input = chars("\\");
    let mut parser = Parser::new_with_input(&input);
    assert_eq!(parser.parse_escape_sequence(), Err(ParseError));
    assert!(parser.state.eof());
    let input = chars("\\4zx");
    let mut parser = Parser::new_with_input(&input);
    assert_eq!(parser.parse_escape_sequence(), Err(ParseError));
    assert_eq!(parser.state.get(), Some('x'));
}

#[test]
fn hexstring_reads_pairs_to_the_end() {
    let input = chars("#4E59414e213f");
    let mut parser = Parser::new_with_input(&input);
    assert_eq!(parser.parse_hexstring(), Ok("NYAN!?".to_string()));
    assert!(parser.state.eof());
    let input = chars("#");
    let mut parser = Parser::new_with_input(&input);
    assert_eq!(parser.parse_hexstring(), Ok(String::new()));
}

#[test]
fn hexstring_fails() {
    let input = chars("41");
    let mut parser = Parser::new_with_input(&input);
    assert_eq!(parser.parse_hexstring(), Err(ParseError));
    assert_eq!(parser.state.get(), Some('4'));
    let input = chars("#41,x");
    let mut parser = Parser::new_with_input(&input);
    assert_eq!(parser.parse_hexstring(), Err(ParseError));
    assert_eq!(parser.state.get(), Some(','));
    let input = chars("#414");
    let mut parser = Parser::new_with_input(&input);
    assert_eq!(parser.parse_hexstring(), Err(ParseError));
    assert!(parser.state.eof());
    let input = chars("#4g41");
    let mut parser = Parser::new_with_input(&input);
    assert_eq!(parser.parse_hexstring(), Err(ParseError));
    assert_eq!(parser.state.get(), Some('4'));
}

#[test]
fn hexpair_decodes_two_digits() {
    let input = chars("3Fx");
    let mut parser = Parser::new_with_input(&input);
    assert_eq!(parser.parse_hexpair(), Ok("?".to_string()));
    assert_eq!(parser.state.get(), Some('x'));
    let input = chars("e9");
    let mut parser = Parser::new_with_input(&input);
    assert_eq!(parser.parse_hexpair(), Ok("\u{e9}".to_string()));
    assert!(parser.state.eof());
}

#[test]
fn hexpair_consumes_both_characters_before_it_fails() {
    let input = chars("zzx");
    let mut parser = Parser::new_with_input(&input);
    assert_eq!(parser.parse_hexpair(), Err(ParseError));
    assert_eq!(parser.state.get(), Some('x'));
    let input = chars("4,x");
    let mut parser = Parser::new_with_input(&input);
    assert_eq!(parser.parse_hexpair(), Err(ParseError));
    assert_eq!(parser.state.get(), Some('x'));
}

#[test]
fn hexpair_needs_two_characters() {
    let input = chars("4");
    let mut parser = Parser::new_with_input(&input);
    assert_eq!(parser.parse_hexpair(), Err(ParseError));
    assert!(parser.state.eof());
    let input = chars("");
    let mut parser = Parser::new_with_input(&input);
    assert_eq!(parser.parse_hexpair(), Err(ParseError));
}
