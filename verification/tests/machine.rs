//! Runs translated-and-assembled programs on a small Hack CPU model and
//! checks the stack machine's observable behavior.

use hack_backend::assemble;
use hack_backend::codegen::entry;
use hack_backend::translate;

fn run_hack(binary: &str, init: &[(usize, u16)], steps: usize) -> Vec<u16> {
    let rom: Vec<u16> = binary
        .lines()
        .filter(|l| !l.is_empty())
        .map(|l| u16::from_str_radix(l, 2).unwrap())
        .collect();
    let mut ram = vec![0u16; 32768];
    for &(addr, v) in init {
        ram[addr] = v;
    }
    let mut a: u16 = 0;
    let mut d: u16 = 0;
    let mut pc: usize = 0;
    for _ in 0..steps {
        if pc >= rom.len() {
            break;
        }
        let ins = rom[pc];
        if ins & 0x8000 == 0 {
            a = ins;
            pc += 1;
            continue;
        }
        let use_m = ins & 0x1000 != 0;
        let c = (ins >> 6) & 0x3f;
        let dst = (ins >> 3) & 0x7;
        let jmp = ins & 0x7;
        let mut x = d;
        let mut y = if use_m { ram[(a & 0x7fff) as usize] } else { a };
        if c & 0b100000 != 0 {
            x = 0;
        }
        if c & 0b010000 != 0 {
            x = !x;
        }
        if c & 0b001000 != 0 {
            y = 0;
        }
        if c & 0b000100 != 0 {
            y = !y;
        }
        let mut out = if c & 0b000010 != 0 { x.wrapping_add(y) } else { x & y };
        if c & 0b000001 != 0 {
            out = !out;
        }
        if dst & 0b001 != 0 {
            ram[(a & 0x7fff) as usize] = out;
        }
        if dst & 0b010 != 0 {
            d = out;
        }
        if dst & 0b100 != 0 {
            a = out;
        }
        let o = out as i16;
        let taken = match jmp {
            1 => o > 0,
            2 => o == 0,
            3 => o >= 0,
            4 => o < 0,
            5 => o != 0,
            6 => o <= 0,
            7 => true,
            _ => false,
        };
        if taken {
            pc = a as usize;
        } else {
            pc += 1;
        }
    }
    ram
}

#[test]
fn push_constants_and_add() {
    let assembly = translate("Main.vm", "push constant 7\npush constant 8\nadd").unwrap();
    let bin = assemble(&assembly).unwrap();
    let ram = run_hack(&bin, &[(0, 256)], 1000);
    assert_eq!(ram[0], 257);
    assert_eq!(ram[256], 15);
}

#[test]
fn arithmetic_and_comparisons_on_the_stack() {
    let src = "push constant 9\npush constant 4\nsub\n\
               push constant 5\neq\n\
               push constant 3\npush constant 3\nlt\n\
               push constant 2\npush constant 1\ngt";
    let assembly = translate("Main.vm", src).unwrap();
    let bin = assemble(&assembly).unwrap();
    let ram = run_hack(&bin, &[(0, 256)], 5000);
    assert_eq!(ram[0], 259);
    assert_eq!(ram[256], 0xffff); // 9 - 4 == 5 is true
    assert_eq!(ram[257], 0); // 3 < 3 is false
    assert_eq!(ram[258], 0xffff); // 2 > 1 is true
}

#[test]
fn segments_move_values_through_memory() {
    let src = "push constant 21\npop local 0\n\
               push constant 37\npop temp 2\n\
               push local 0\npush temp 2\nadd\npop static 5";
    let assembly = translate("Seg.vm", src).unwrap();
    let bin = assemble(&assembly).unwrap();
    // LCL parked at 300.
    let ram = run_hack(&bin, &[(0, 256), (1, 300)], 5000);
    assert_eq!(ram[300], 21);
    assert_eq!(ram[7], 37);
    // The static cell Seg.5 is the first variable the assembler allocates
    // after TEMP, the codegen's scratch slot.
    assert_eq!(ram[0], 256);
    let static_cell = ram[16..32].iter().position(|&v| v == 58);
    assert!(static_cell.is_some());
}

#[test]
fn call_and_return_restore_the_caller() {
    let vm = "function Sys.init 0\ncall Main.f 0\nlabel HALT\ngoto HALT\n\
              function Main.f 0\npush constant 42\nreturn";
    let mut program = entry();
    program.push_str(&translate("Sys.vm", vm).unwrap());
    let bin = assemble(&program).unwrap();
    // Sentinels in THIS and THAT: the bootstrap call frame saves them and
    // the returns must bring them back.
    let ram = run_hack(&bin, &[(3, 1111), (4, 2222)], 20000);
    // Bootstrap: SP=256, call Sys.init leaves LCL=261, ARG=256.
    // Main.f's return puts 42 at the caller's stack top.
    assert_eq!(ram[0], 262);
    assert_eq!(ram[261], 42);
    assert_eq!(ram[1], 261);
    assert_eq!(ram[2], 256);
    assert_eq!(ram[3], 1111);
    assert_eq!(ram[4], 2222);
}

#[test]
fn function_zeroes_its_locals_and_uses_arguments() {
    let vm = "function Sys.init 0\npush constant 10\npush constant 20\ncall Main.max 2\n\
              pop static 0\nlabel HALT\ngoto HALT\n\
              function Main.max 1\npush argument 0\npush argument 1\ngt\nif-goto FIRST\n\
              push argument 1\nreturn\nlabel FIRST\npush argument 0\nreturn";
    let mut program = entry();
    program.push_str(&translate("Sys.vm", vm).unwrap());
    let bin = assemble(&program).unwrap();
    let ram = run_hack(&bin, &[], 50000);
    // max(10, 20) == 20, stored through the static segment.
    assert!(ram[16..40].iter().any(|&v| v == 20));
    assert!(!ram[256..280].iter().any(|&v| v == 99));
}
