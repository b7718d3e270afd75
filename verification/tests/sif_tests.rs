use rust_phi::link_fn::get_link_fn;
use rust_phi::link_fn::get_link_fns;
use rust_phi::link_fn::link_on_num;
use rust_phi::sif::parse_sif_line;
use rust_phi::sif::LinkType;
use rust_phi::sif::SifError;

fn parse_network(lines: &[&str]) -> Vec<rust_phi::sif::LinkInfo> {
    let mut infos = Vec::new();
    for line in lines {
        infos.push(parse_sif_line(line).unwrap());
    }
    infos
}

#[test]
fn test_parse_sif_line() {
    let info = parse_sif_line("A OR B C").unwrap();
    assert_eq!(info.element, "A");
    assert!(matches!(info.link_type, LinkType::OR));
    assert_eq!(info.condition, vec!["B".to_string(), "C".to_string()]);
}

#[test]
fn test_parse_sif_line_extra_whitespace() {
    let info = parse_sif_line("  A \t ANY  B  C  D ").unwrap();
    assert_eq!(info.element, "A");
    assert!(matches!(info.link_type, LinkType::ANY));
    assert_eq!(info.condition.len(), 3);
}

#[test]
fn test_parse_sif_line_missing_tokens() {
    assert_eq!(parse_sif_line("A OR").unwrap_err(), SifError::MissingTokens);
    assert_eq!(parse_sif_line("").unwrap_err(), SifError::MissingTokens);
    assert_eq!(parse_sif_line("A").unwrap_err(), SifError::MissingTokens);
}

#[test]
fn test_parse_sif_line_unknown_link() {
    assert_eq!(parse_sif_line("A NAND B C").unwrap_err(), SifError::UnknownLink);
}

#[test]
fn test_get_link_fn_arity() {
    assert!(get_link_fn(&LinkType::COPY, 1).is_ok());
    assert_eq!(
        get_link_fn(&LinkType::COPY, 2).unwrap_err(),
        SifError::InvalidConditionSize
    );
    assert!(get_link_fn(&LinkType::AND, 2).is_ok());
    assert_eq!(
        get_link_fn(&LinkType::XOR, 3).unwrap_err(),
        SifError::InvalidConditionSize
    );
    assert!(get_link_fn(&LinkType::NOISY, 5).is_ok());
    assert_eq!(
        get_link_fn(&LinkType::ANY, 0).unwrap_err(),
        SifError::InvalidConditionSize
    );
}

#[test]
fn test_get_link_fns_reference_network() {
    let infos = parse_network(&["A OR B C", "B AND A C", "C XOR A B"]);
    let fns = get_link_fns(&infos).unwrap();
    assert_eq!(fns.len(), 3);
    assert!(matches!(fns[0].0, LinkType::OR));
    assert_eq!(fns[0].1, 0b110);
    assert!(matches!(fns[1].0, LinkType::AND));
    assert_eq!(fns[1].1, 0b101);
    assert!(matches!(fns[2].0, LinkType::XOR));
    assert_eq!(fns[2].1, 0b011);
}

#[test]
fn test_get_link_fns_duplicate_element() {
    let infos = parse_network(&["A OR B C", "A AND B C", "B COPY A", "C COPY A"]);
    assert_eq!(get_link_fns(&infos).unwrap_err(), SifError::DuplicateElement);
}

#[test]
fn test_get_link_fns_undefined_reference() {
    let infos = parse_network(&["A OR B Z", "B COPY A"]);
    assert_eq!(get_link_fns(&infos).unwrap_err(), SifError::UndefinedReference);
}

#[test]
fn test_get_link_fns_bad_arity() {
    let infos = parse_network(&["A COPY B C", "B COPY A", "C COPY A"]);
    assert_eq!(get_link_fns(&infos).unwrap_err(), SifError::InvalidConditionSize);
}

#[test]
fn test_link_on_num_semantics() {
    // Twice the ON probability: 0, 1 or 2.
    assert_eq!(link_on_num(&LinkType::COPY, 0b10, 0b10), 2);
    assert_eq!(link_on_num(&LinkType::COPY, 0b00, 0b10), 0);
    assert_eq!(link_on_num(&LinkType::NOT, 0b00, 0b10), 2);
    assert_eq!(link_on_num(&LinkType::AND, 0b110, 0b110), 2);
    assert_eq!(link_on_num(&LinkType::AND, 0b100, 0b110), 0);
    assert_eq!(link_on_num(&LinkType::OR, 0b010, 0b110), 2);
    assert_eq!(link_on_num(&LinkType::XOR, 0b010, 0b110), 2);
    assert_eq!(link_on_num(&LinkType::XOR, 0b110, 0b110), 0);
    assert_eq!(link_on_num(&LinkType::ALL, 0b111, 0b101), 2);
    assert_eq!(link_on_num(&LinkType::EVEN, 0b000, 0b011), 2);
    assert_eq!(link_on_num(&LinkType::ODD, 0b001, 0b011), 2);
    assert_eq!(link_on_num(&LinkType::NOISY, 0b000, 0b011), 1);
}
