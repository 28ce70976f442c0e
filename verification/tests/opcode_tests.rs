//! The opcode enumeration: numeric codes and mnemonic parsing stay
//! consistent in both directions.

use ssem_simulator::opcode::Opcode;

/// Ensure consistency during conversion
#[test]
fn from_u8() {
    assert_eq!(Opcode::decode(Opcode::JMP.code()), Opcode::JMP);
    assert_eq!(Opcode::decode(Opcode::JRP.code()), Opcode::JRP);
    assert_eq!(Opcode::decode(Opcode::LDN.code()), Opcode::LDN);
    assert_eq!(Opcode::decode(Opcode::STO.code()), Opcode::STO);
    assert_eq!(Opcode::decode(Opcode::SUB.code()), Opcode::SUB);
    assert_eq!(Opcode::decode(Opcode::SUB2.code()), Opcode::SUB2);
    assert_eq!(Opcode::decode(Opcode::CMP.code()), Opcode::CMP);
    assert_eq!(Opcode::decode(Opcode::STP.code()), Opcode::STP);
}

/// Ensure consistency during string conversion
#[test]
fn from_str() {
    assert_eq!(Opcode::parse("JMP").unwrap().mnemonic(), "JMP");
    assert_eq!(Opcode::parse("JRP").unwrap().mnemonic(), "JRP");
    assert_eq!(Opcode::parse("LDN").unwrap().mnemonic(), "LDN");
    assert_eq!(Opcode::parse("STO").unwrap().mnemonic(), "STO");
    assert_eq!(Opcode::parse("SUB").unwrap().mnemonic(), "SUB");
    assert_eq!(Opcode::parse("SUB2").unwrap().mnemonic(), "SUB2");
    assert_eq!(Opcode::parse("CMP").unwrap().mnemonic(), "CMP");
    assert_eq!(Opcode::parse("STP").unwrap().mnemonic(), "STP");
}

#[test]
fn parse_is_case_sensitive_and_exact() {
    assert!(Opcode::parse("jmp").is_err());
    assert!(Opcode::parse("SUB3").is_err());
    assert!(Opcode::parse("").is_err());
    assert!(Opcode::parse("STP ").is_err());
    assert_eq!(Opcode::parse("NUM"), Ok(Opcode::NUM));
}
