use rfc2253::parse_distinguished_name_str;

#[test]
fn test_empty() {
    let str = "";
    let res = parse_distinguished_name_str(str).unwrap();
    assert!(res.attributes.len() == 0);
}

#[test]
fn single_attribute() {
    let str = "C=DE";
    let res = parse_distinguished_name_str(str).unwrap();
    assert!(res.attributes.len() == 1);
    assert!(res.attributes.get("C").unwrap() == "DE");
}

#[test]
fn single_attribute_whitespace() {
    let str = "CN=Nyan Cat";
    let res = parse_distinguished_name_str(str).unwrap();
    assert!(res.attributes.len() == 1);
    assert!(res.attributes.get("CN").unwrap() == "Nyan Cat");
}

#[test]
fn single_attribute_escaped_quote() {
    let str = "CN=Nyan \\\"Cat\\\"";
    let res = parse_distinguished_name_str(str).unwrap();
    assert!(res.attributes.len() == 1);
    assert!(res.attributes.get("CN").unwrap() == "Nyan \"Cat\"");
}

#[test]
fn single_attribute_escaped_special() {
    let str = "CN=Nyan\\=Cat";
    let res = parse_distinguished_name_str(str).unwrap();
    assert!(res.attributes.len() == 1);
    assert!(res.attributes.get("CN").unwrap() == "Nyan=Cat");
}

#[test]
fn single_attribute_escaped_escape() {
    let str = "CN=Nyan\\\\Cat";
    let res = parse_distinguished_name_str(str).unwrap();
    assert!(res.attributes.len() == 1);
    assert!(res.attributes.get("CN").unwrap() == "Nyan\\Cat");
}

#[test]
fn single_attribute_hexpair() {
    let str = "CN=Nyan\\21Cat\\3F";
    let res = parse_distinguished_name_str(str).unwrap();
    assert!(res.attributes.len() == 1);
    assert!(res.attributes.get("CN").unwrap() == "Nyan!Cat?");
}

#[test]
fn single_attribute_quoted() {
    let str = "C=\"DE\"";
    let res = parse_distinguished_name_str(str).unwrap();
    assert!(res.attributes.len() == 1);
    assert!(res.attributes.get("C").unwrap() == "DE");
}

#[test]
fn single_attribute_quoted_whitespace() {
    let str = "CN=\"Nyan Cat\"";
    let res = parse_distinguished_name_str(str).unwrap();
    assert!(res.attributes.len() == 1);
    assert!(res.attributes.get("CN").unwrap() == "Nyan Cat");
}

#[test]
fn single_attribute_quoted_escaped_quote() {
    let str = "CN=\"Nyan \\\"Cat\\\"\"";
    let res = parse_distinguished_name_str(str).unwrap();
    assert!(res.attributes.len() == 1);
    assert!(res.attributes.get("CN").unwrap() == "Nyan \"Cat\"");
}

#[test]
fn single_attribute_quoted_escaped_special() {
    let str = "CN=\"Nyan\\=Cat\"";
    let res = parse_distinguished_name_str(str).unwrap();
    assert!(res.attributes.len() == 1);
    assert!(res.attributes.get("CN").unwrap() == "Nyan=Cat");
}

#[test]
fn single_attribute_quoted_escaped_escape() {
    let str = "CN=\"Nyan\\\\Cat\"";
    let res = parse_distinguished_name_str(str).unwrap();
    assert!(res.attributes.len() == 1);
    assert!(res.attributes.get("CN").unwrap() == "Nyan\\Cat");
}

#[test]
fn single_attribute_quoted_hexpair() {
    let str = "CN=\"Nyan\\21Cat\\3F\"";
    let res = parse_distinguished_name_str(str).unwrap();
    assert!(res.attributes.len() == 1);
    assert!(res.attributes.get("CN").unwrap() == "Nyan!Cat?");
}

#[test]
fn single_attribute_hexstring() {
    let str = "CN=#4E59414E213F";
    let res = parse_distinguished_name_str(str).unwrap();
    assert!(res.attributes.len() == 1);
    assert!(res.attributes.get("CN").unwrap() == "NYAN!?");
}

#[test]
fn invalid_quoting1() {
    let str = "CN=Nyan\"Cat";
    let res = parse_distinguished_name_str(str);
    assert!(res.is_err());
}

#[test]
fn invalid_quoting2() {
    let str = "CN=\"NyanCat";
    let res = parse_distinguished_name_str(str);
    assert!(res.is_err());
}

#[test]
fn invalid_hexstring() {
    let str = "CN=#abc";
    let res = parse_distinguished_name_str(str);
    assert!(res.is_err());
}

#[test]
fn invalid_novalue() {
    let str = "CN";
    let res = parse_distinguished_name_str(str);
    assert!(res.is_err());
}

#[test]
fn multiple_attributes() {
    let str = "C=DE,L=Berlin,ST=Berlin";
    let res = parse_distinguished_name_str(str).unwrap();
    assert!(res.attributes.len() == 3);
    assert!(res.attributes.get("C").unwrap() == "DE");
    assert!(res.attributes.get("L").unwrap() == "Berlin");
    assert!(res.attributes.get("ST").unwrap() == "Berlin");
}

#[test]
fn multiple_attributes_alt() {
    let str = "C=DE,L=Berlin+ST=Berlin";
    let res = parse_distinguished_name_str(str).unwrap();
    assert!(res.attributes.len() == 3);
    assert!(res.attributes.get("C").unwrap() == "DE");
    assert!(res.attributes.get("L").unwrap() == "Berlin");
    assert!(res.attributes.get("ST").unwrap() == "Berlin");
}

#[test]
fn full() {
    let str = "C=DE,CN=paul \\<test\\>,OU=ACME Inc.,O=ACME Inc.,L=Berlin,ST=Berlin";
    let res = parse_distinguished_name_str(str).unwrap();
    assert!(res.attributes.get("CN").unwrap() == "paul <test>");
    assert!(res.attributes.len() == 6);
    assert!(res.attributes.get("C").unwrap() == "DE");
    assert!(res.attributes.get("L").unwrap() == "Berlin");
    assert!(res.attributes.get("ST").unwrap() == "Berlin");
    assert!(res.attributes.get("O").unwrap() == "ACME Inc.");
    assert!(res.attributes.get("OU").unwrap() == "ACME Inc.");
}
