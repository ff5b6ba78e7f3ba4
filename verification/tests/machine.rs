use translators::assembler::{assemble, assembly_fits_check};
use translators::instructions::write_listing;
use translators::vm_translator::parser::parser;
use translators::vm_translator::{translate_commands, translation_fits};

/// The Hack ALU on the seven `comp` bits.
fn alu(bits: u16, a: u16, d: u16, m: u16) -> u16 {
    let y = if bits & 64 != 0 { m } else { a };
    let x = if bits & 32 != 0 { 0 } else { d };
    let x = if bits & 16 != 0 { !x } else { x };
    let y = if bits & 8 != 0 { 0 } else { y };
    let y = if bits & 4 != 0 { !y } else { y };
    let out = if bits & 2 != 0 { x.wrapping_add(y) } else { x & y };
    if bits & 1 != 0 { !out } else { out }
}

/// Runs a Hack program for `steps` cycles and gives back the data memory.
fn run_hack(rom: &[u16], steps: usize) -> Vec<u16> {
    let mut ram = vec![0u16; 32768];
    let (mut a, mut d, mut pc) = (0u16, 0u16, 0usize);
    for _ in 0..steps {
        let w = rom[pc];
        if w & 0x8000 == 0 {
            a = w;
            pc += 1;
            continue;
        }
        let out = alu((w >> 6) & 0x7F, a, d, ram[a as usize]);
        let (dest, jump, old_a) = ((w >> 3) & 7, w & 7, a);
        if dest & 1 != 0 {
            ram[old_a as usize] = out;
        }
        if dest & 2 != 0 {
            d = out;
        }
        if dest & 4 != 0 {
            a = out;
        }
        let v = out as i16;
        let taken = (jump & 4 != 0 && v < 0) || (jump & 2 != 0 && v == 0) || (jump & 1 != 0 && v > 0);
        pc = if taken { old_a as usize } else { pc + 1 };
    }
    ram
}

fn translate_and_run(name: &str, src: &str) -> Vec<u16> {
    let commands = parser(src).unwrap();
    assert!(translation_fits(&commands));
    let text = write_listing(&translate_commands(name, &commands));
    assert!(assembly_fits_check(&text));
    let (_, words) = assemble(&text).unwrap();
    run_hack(&words, 20_000)
}

#[test]
fn arithmetic_runs_on_the_hack_computer() {
    let ram = translate_and_run(
        "Arith",
        "push constant 7\npush constant 8\nadd\npush constant 20\nsub\nneg\nnot\n",
    );
    assert_eq!(ram[0], 257);
    assert_eq!(ram[256], !5u16);
}

#[test]
fn comparisons_run_on_the_hack_computer() {
    let ram = translate_and_run(
        "Cmp",
        "push constant 3\npush constant 3\neq\npush constant 2\npush constant 5\nlt\n\
         push constant 9\npush constant 4\ngt\npush constant 1\npush constant 2\ngt\n\
         push constant 4\npush constant 5\neq\n",
    );
    assert_eq!(ram[0], 261);
    assert_eq!(&ram[256..261], &[0xFFFF, 0xFFFF, 0xFFFF, 0, 0]);
}

#[test]
fn segments_run_on_the_hack_computer() {
    let ram = translate_and_run(
        "Seg",
        "push constant 42\npop temp 2\npush constant 3000\npop pointer 0\npush constant 9\n\
         pop this 1\npush this 1\npop static 0\npush temp 2\npush static 0\nand\n",
    );
    assert_eq!(ram[7], 42);
    assert_eq!(ram[3], 3000);
    assert_eq!(ram[3001], 9);
    assert_eq!(ram[16], 9);
    assert_eq!(ram[0], 257);
    assert_eq!(ram[256], 42 & 9);
}
