use translators::instructions::opcodes::get_comp_opcode;
use translators::instructions::{CompFlags, DestFlags, JumpFlags};

#[test]
fn get_comp_opcode_returns_expected_bits() {
    let result = translators::project6::opcodes::get_comp_opcode(&CompFlags::Zero, &DestFlags::D, &JumpFlags::JMP);
    assert_eq!(result, 0b1_110_101_010_010_111);
}

#[test]
fn it_should_return_comp_opcode_bits() {
    let result = get_comp_opcode(&CompFlags::Zero, &DestFlags::D, &JumpFlags::JMP);
    assert_eq!(result, 0b1_110_101_010_010_111);
}
