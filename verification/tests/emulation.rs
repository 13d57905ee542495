use nand2vmtranslator::translate::translate;
use std::collections::HashMap;

const SP: usize = 0;
const LCL: usize = 1;
const ARG: usize = 2;
const THIS: usize = 3;
const THAT: usize = 4;
const TRUE: u16 = 0xffff;
const FALSE: u16 = 0;

enum Op {
    Address(u16),
    Compute { dest: String, comp: String, jump: String },
}

fn assemble(text: &str) -> Vec<Op> {
    let mut symbols: HashMap<String, u16> = HashMap::new();
    for (name, value) in [("SP", 0), ("LCL", 1), ("ARG", 2), ("THIS", 3), ("THAT", 4)] {
        symbols.insert(name.to_string(), value);
    }
    let mut place: u16 = 0;
    for line in text.lines() {
        if let Some(rest) = line.strip_prefix('(') {
            let name = rest.strip_suffix(')').expect("a label ends with a bracket");
            assert!(symbols.insert(name.to_string(), place).is_none(), "label marked twice");
        } else {
            place += 1;
        }
    }
    let mut next_variable: u16 = 16;
    let mut rom = Vec::new();
    for line in text.lines() {
        assert!(!line.is_empty());
        if line.starts_with('(') {
            continue;
        }
        if let Some(name) = line.strip_prefix('@') {
            let value = if name.chars().all(|c| c.is_ascii_digit()) {
                let number: u32 = name.parse().unwrap();
                assert!(number < 0x8000, "no room for the number");
                number as u16
            } else if let Some(value) = symbols.get(name) {
                *value
            } else {
                let value = next_variable;
                next_variable += 1;
                symbols.insert(name.to_string(), value);
                value
            };
            rom.push(Op::Address(value));
        } else {
            let (dest, rest) = match line.split_once('=') {
                Some((dest, rest)) => (dest, rest),
                None => ("", line),
            };
            let (comp, jump) = match rest.split_once(';') {
                Some((comp, jump)) => (comp, jump),
                None => (rest, ""),
            };
            rom.push(Op::Compute {
                dest: dest.to_string(),
                comp: comp.to_string(),
                jump: jump.to_string(),
            });
        }
    }
    rom
}

fn compute(comp: &str, a: u16, d: u16, m: u16) -> u16 {
    match comp {
        "0" => 0,
        "1" => 1,
        "-1" => 0xffff,
        "D" => d,
        "A" => a,
        "M" => m,
        "!D" => !d,
        "!A" => !a,
        "!M" => !m,
        "-D" => d.wrapping_neg(),
        "-A" => a.wrapping_neg(),
        "-M" => m.wrapping_neg(),
        "D+1" => d.wrapping_add(1),
        "A+1" => a.wrapping_add(1),
        "M+1" => m.wrapping_add(1),
        "D-1" => d.wrapping_sub(1),
        "A-1" => a.wrapping_sub(1),
        "M-1" => m.wrapping_sub(1),
        "D+A" => d.wrapping_add(a),
        "D+M" => d.wrapping_add(m),
        "D-A" => d.wrapping_sub(a),
        "D-M" => d.wrapping_sub(m),
        "A-D" => a.wrapping_sub(d),
        "M-D" => m.wrapping_sub(d),
        "D&A" => d & a,
        "D&M" => d & m,
        "D|A" => d | a,
        "D|M" => d | m,
        other => panic!("no such computation: {}", other),
    }
}

fn jumps(jump: &str, value: u16) -> bool {
    let signed = value as i16;
    match jump {
        "" => false,
        "JGT" => signed > 0,
        "JEQ" => signed == 0,
        "JGE" => signed >= 0,
        "JLT" => signed < 0,
        "JNE" => signed != 0,
        "JLE" => signed <= 0,
        "JMP" => true,
        other => panic!("no such jump: {}", other),
    }
}

fn run(text: &str, ram: &mut Vec<u16>) {
    let rom = assemble(text);
    let mut a: u16 = 0;
    let mut d: u16 = 0;
    let mut pc: usize = 0;
    let mut steps = 0;
    while pc < rom.len() {
        steps += 1;
        assert!(steps < 1_000_000, "the program does not end");
        match &rom[pc] {
            Op::Address(value) => {
                a = *value;
                pc += 1;
            }
            Op::Compute { dest, comp, jump } => {
                let at = a as usize;
                let value = compute(comp, a, d, ram[at]);
                for register in dest.chars() {
                    match register {
                        'A' => a = value,
                        'D' => d = value,
                        'M' => ram[at] = value,
                        other => panic!("no such register: {}", other),
                    }
                }
                if jumps(jump, value) {
                    pc = a as usize;
                } else {
                    pc += 1;
                }
            }
        }
    }
}

fn fresh_ram() -> Vec<u16> {
    let mut ram = vec![0u16; 0x10000];
    ram[SP] = 256;
    ram[LCL] = 300;
    ram[ARG] = 400;
    ram[THIS] = 3000;
    ram[THAT] = 3010;
    ram
}

fn run_source(source: &str, module: &str, ram: &mut Vec<u16>) {
    let t = translate(source, module);
    assert_eq!(t.failure, None);
    run(&t.assembly, ram);
}

fn top_after(source: &str) -> u16 {
    let mut ram = fresh_ram();
    run_source(source, "Main", &mut ram);
    ram[ram[SP] as usize - 1]
}

#[test]
fn round_trip_two_values() {
    let mut ram = fresh_ram();
    run_source("push constant 7\npush constant 9\npop temp 0\npop temp 1\n", "Main", &mut ram);
    assert_eq!(ram[5], 9);
    assert_eq!(ram[6], 7);
    assert_eq!(ram[SP], 256);
}

#[test]
fn round_trip_eight_values() {
    let values = [11u16, 22, 33, 44, 55, 66, 77, 32767];
    let mut source = String::new();
    for value in values {
        source.push_str(&format!("push constant {}\n", value));
    }
    for place in 0..8 {
        source.push_str(&format!("pop temp {}\n", place));
    }
    let mut ram = fresh_ram();
    run_source(&source, "Main", &mut ram);
    for place in 0..8 {
        assert_eq!(ram[5 + place], values[7 - place]);
    }
    assert_eq!(ram[SP], 256);
}

#[test]
fn round_trip_with_a_place_used_twice() {
    let mut ram = fresh_ram();
    run_source(
        "push constant 1\npush constant 2\npush constant 3\npop temp 4\npop temp 2\npop temp 4\n",
        "Main",
        &mut ram,
    );
    assert_eq!(ram[5 + 2], 2);
    assert_eq!(ram[5 + 4], 1);
    assert_eq!(ram[SP], 256);
}

#[test]
fn push_moves_the_stack_pointer_up_after_the_write() {
    let mut ram = fresh_ram();
    run_source("push constant 42\n", "Main", &mut ram);
    assert_eq!(ram[256], 42);
    assert_eq!(ram[SP], 257);
}

#[test]
fn pop_moves_the_stack_pointer_down_before_the_read() {
    let mut ram = fresh_ram();
    ram[SP] = 258;
    ram[256] = 10;
    ram[257] = 20;
    run_source("pop temp 7\n", "Main", &mut ram);
    assert_eq!(ram[12], 20);
    assert_eq!(ram[SP], 257);
    assert_eq!(ram[256], 10);
}

#[test]
fn sub_is_second_from_top_minus_top() {
    let mut ram = fresh_ram();
    run_source("push constant 5\npush constant 3\nsub\n", "Main", &mut ram);
    assert_eq!(ram[SP], 257);
    assert_eq!(ram[256], 2);
    assert_ne!(ram[256], (-2i16) as u16);
}

#[test]
fn sub_below_zero_wraps() {
    assert_eq!(top_after("push constant 3\npush constant 5\nsub\n"), (-2i16) as u16);
}

#[test]
fn add_and_or() {
    assert_eq!(top_after("push constant 5\npush constant 3\nadd\n"), 8);
    assert_eq!(top_after("push constant 32767\npush constant 1\nadd\n"), 0x8000);
    assert_eq!(top_after("push constant 12\npush constant 10\nand\n"), 8);
    assert_eq!(top_after("push constant 12\npush constant 10\nor\n"), 14);
}

#[test]
fn neg_and_not_change_the_top_in_place() {
    let mut ram = fresh_ram();
    run_source("push constant 4\npush constant 5\nneg\n", "Main", &mut ram);
    assert_eq!(ram[SP], 258);
    assert_eq!(ram[256], 4);
    assert_eq!(ram[257], (-5i16) as u16);
    let mut ram = fresh_ram();
    run_source("push constant 4\npush constant 5\nnot\n", "Main", &mut ram);
    assert_eq!(ram[SP], 258);
    assert_eq!(ram[256], 4);
    assert_eq!(ram[257], !5u16);
}

#[test]
fn comparisons_push_all_ones_or_all_zeros() {
    assert_eq!(top_after("push constant 5\npush constant 5\neq\n"), TRUE);
    assert_eq!(top_after("push constant 5\npush constant 3\neq\n"), FALSE);
    assert_eq!(top_after("push constant 5\npush constant 3\ngt\n"), TRUE);
    assert_eq!(top_after("push constant 3\npush constant 5\ngt\n"), FALSE);
    assert_eq!(top_after("push constant 5\npush constant 5\ngt\n"), FALSE);
    assert_eq!(top_after("push constant 3\npush constant 5\nlt\n"), TRUE);
    assert_eq!(top_after("push constant 5\npush constant 3\nlt\n"), FALSE);
    assert_eq!(top_after("push constant 5\npush constant 5\nlt\n"), FALSE);
}

#[test]
fn comparisons_take_two_cells_and_leave_one() {
    let mut ram = fresh_ram();
    run_source("push constant 9\npush constant 5\npush constant 3\ngt\n", "Main", &mut ram);
    assert_eq!(ram[SP], 258);
    assert_eq!(ram[256], 9);
    assert_eq!(ram[257], TRUE);
}

#[test]
fn many_comparisons_in_one_program() {
    let mut ram = fresh_ram();
    run_source(
        "push constant 1\npush constant 1\neq\n\
         push constant 1\npush constant 2\neq\n\
         push constant 2\npush constant 1\ngt\n\
         push constant 1\npush constant 2\ngt\n\
         push constant 1\npush constant 2\nlt\n\
         push constant 2\npush constant 1\nlt\n",
        "Main",
        &mut ram,
    );
    assert_eq!(ram[SP], 262);
    assert_eq!(&ram[256..262], &[TRUE, FALSE, TRUE, FALSE, TRUE, FALSE]);
}

#[test]
fn local_and_argument_are_isolated() {
    let mut ram = fresh_ram();
    ram[302] = 11;
    ram[402] = 22;
    run_source("push local 2\npush argument 2\n", "Main", &mut ram);
    assert_eq!(ram[256], 11);
    assert_eq!(ram[257], 22);
    assert_eq!(ram[SP], 258);
    assert_eq!(ram[LCL], 300);
    assert_eq!(ram[ARG], 400);
}

#[test]
fn pops_to_pointer_segments_write_base_plus_index() {
    let mut ram = fresh_ram();
    run_source(
        "push constant 1\npop local 0\npush constant 2\npop argument 3\n\
         push constant 3\npop this 5\npush constant 4\npop that 7\n",
        "Main",
        &mut ram,
    );
    assert_eq!(ram[300], 1);
    assert_eq!(ram[403], 2);
    assert_eq!(ram[3005], 3);
    assert_eq!(ram[3017], 4);
    assert_eq!(ram[SP], 256);
    assert_eq!(&ram[1..5], &[300, 400, 3000, 3010]);
}

#[test]
fn pushes_from_pointer_segments_read_base_plus_index() {
    let mut ram = fresh_ram();
    ram[3002] = 77;
    ram[3016] = 88;
    run_source("push this 2\npush that 6\n", "Main", &mut ram);
    assert_eq!(&ram[256..258], &[77, 88]);
}

#[test]
fn temp_and_pointer_have_fixed_origins() {
    let mut ram = fresh_ram();
    run_source(
        "push constant 3030\npop pointer 0\npush constant 3040\npop pointer 1\n\
         push constant 10\npop temp 0\npush constant 17\npop temp 7\n\
         push pointer 0\npush pointer 1\npush temp 7\n",
        "Main",
        &mut ram,
    );
    assert_eq!(ram[THIS], 3030);
    assert_eq!(ram[THAT], 3040);
    assert_eq!(ram[5], 10);
    assert_eq!(ram[12], 17);
    assert_eq!(&ram[256..259], &[3030, 3040, 17]);
}

#[test]
fn statics_keep_their_values() {
    let mut ram = fresh_ram();
    run_source(
        "push constant 111\npop static 8\npush constant 333\npop static 3\n\
         push static 3\npush static 8\nsub\n",
        "Main",
        &mut ram,
    );
    assert_eq!(ram[16], 111);
    assert_eq!(ram[17], 333);
    assert_eq!(ram[256], 222);
    assert_eq!(ram[SP], 257);
}

#[test]
fn statics_of_two_modules_do_not_collide() {
    let foo = translate("push constant 1\npop static 0\n", "Foo");
    let bar = translate("push constant 2\npop static 0\npush static 0\n", "Bar");
    let foo_again = translate("push static 0\n", "Foo");
    let text = format!("{}{}{}", foo.assembly, bar.assembly, foo_again.assembly);
    let mut ram = fresh_ram();
    run(&text, &mut ram);
    assert_eq!(ram[16], 1);
    assert_eq!(ram[17], 2);
    assert_eq!(&ram[256..258], &[2, 1]);
}

#[test]
fn a_longer_program() {
    let mut ram = fresh_ram();
    run_source(
        "// (2 + 3) * 2 == 10, by adding\n\
         push constant 2\npush constant 3\nadd\npop local 0\n\
         push local 0\npush local 0\nadd\n\
         push constant 10\neq\n",
        "Main",
        &mut ram,
    );
    assert_eq!(ram[300], 5);
    assert_eq!(ram[SP], 257);
    assert_eq!(ram[256], TRUE);
}

#[test]
fn pop_to_constant_leaves_the_memory_alone() {
    let mut ram = fresh_ram();
    run_source("push constant 8\npop constant 3\n", "Main", &mut ram);
    assert_eq!(ram[SP], 257);
    assert_eq!(ram[256], 8);
    assert_eq!(ram[3], 3000);
}
