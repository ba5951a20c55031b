//! The mnemonic tables: the computation table round-trips, the jump
//! encoding is a bijection onto 0..=7, and parsed compute lines render
//! back to their text.

use nandtetris::ir::{CodeLine, Comp, Dest, Jump};
use nandtetris::parse::parse_comp;

fn comp_round_trip(c: Comp) {
    let text = c.as_str();
    let chars: Vec<char> = text.chars().collect();
    assert_eq!(parse_comp(&chars), Some(c));
}

#[test]
fn computation_mnemonics_round_trip() {
    let all = [
        Comp::Zero,
        Comp::One,
        Comp::NegOne,
        Comp::D,
        Comp::A,
        Comp::NotD,
        Comp::NotA,
        Comp::NegD,
        Comp::NegA,
        Comp::DPlusOne,
        Comp::APlusOne,
        Comp::DMinusOne,
        Comp::AMinusOne,
        Comp::DPlusA,
        Comp::DMinusA,
        Comp::AMinusD,
        Comp::DAndA,
        Comp::DOrA,
        Comp::M,
        Comp::NotM,
        Comp::NegM,
        Comp::MPlusOne,
        Comp::MMinusOne,
        Comp::DPlusM,
        Comp::DMinusM,
        Comp::MMinusD,
        Comp::DAndM,
        Comp::DOrM,
    ];
    assert_eq!(all.len(), 28);
    for c in all {
        comp_round_trip(c);
    }
}

#[test]
fn computation_mnemonics_are_distinct() {
    let all = [
        Comp::Zero,
        Comp::One,
        Comp::NegOne,
        Comp::D,
        Comp::A,
        Comp::NotD,
        Comp::NotA,
        Comp::NegD,
        Comp::NegA,
        Comp::DPlusOne,
        Comp::APlusOne,
        Comp::DMinusOne,
        Comp::AMinusOne,
        Comp::DPlusA,
        Comp::DMinusA,
        Comp::AMinusD,
        Comp::DAndA,
        Comp::DOrA,
        Comp::M,
        Comp::NotM,
        Comp::NegM,
        Comp::MPlusOne,
        Comp::MMinusOne,
        Comp::DPlusM,
        Comp::DMinusM,
        Comp::MMinusD,
        Comp::DAndM,
        Comp::DOrM,
    ];
    for i in 0..all.len() {
        for j in 0..all.len() {
            if i != j {
                assert_ne!(all[i].as_str(), all[j].as_str());
                assert_ne!(all[i].code(), all[j].code());
            }
        }
    }
}

#[test]
fn jump_codes_are_a_bijection_onto_zero_through_seven() {
    let all = [
        Jump::Null,
        Jump::JGT,
        Jump::JEQ,
        Jump::JGE,
        Jump::JLT,
        Jump::JNE,
        Jump::JLE,
        Jump::JMP,
    ];
    // Total: the eight conditions, the never-jump included, cover every
    // code 0..=7 exactly once, in order.
    for (i, j) in all.iter().enumerate() {
        assert_eq!(j.code() as usize, i);
    }
}

#[test]
fn destination_codes_place_a_d_m_bits() {
    assert_eq!(Dest { a: false, m: false, d: false }.code(), 0b000);
    assert_eq!(Dest { a: false, m: true, d: false }.code(), 0b001);
    assert_eq!(Dest { a: false, m: false, d: true }.code(), 0b010);
    assert_eq!(Dest { a: true, m: false, d: false }.code(), 0b100);
    assert_eq!(Dest { a: true, m: true, d: true }.code(), 0b111);
}

#[test]
fn parsed_compute_line_renders_back() {
    let line = CodeLine::from_str("AMD=D+1;JGT").unwrap();
    assert_eq!(line.to_text(), "AMD=D+1;JGT");
    let reordered = CodeLine::from_str("DMA=D+1").unwrap();
    // The destination prefix renders in the fixed order A, M, D.
    assert_eq!(reordered.to_text(), "AMD=D+1");
}

#[test]
fn parsed_fields_match_their_text() {
    let line = CodeLine::from_str("D;JGT").unwrap();
    assert!(matches!(
        line,
        CodeLine::C {
            comp: Comp::D,
            dest: Dest { a: false, m: false, d: false },
            jump: Jump::JGT,
        }
    ));
    let assign = CodeLine::from_str("M=M+1").unwrap();
    assert!(matches!(
        assign,
        CodeLine::C {
            comp: Comp::MPlusOne,
            dest: Dest { a: false, m: true, d: false },
            jump: Jump::Null,
        }
    ));
}
