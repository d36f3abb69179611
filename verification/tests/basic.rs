//! Programs are compiled and the listing is run on a small model of the
//! machine: the registers, the stack and the data that the generated code
//! uses. The value that `main` returns, cut to one byte as an exit status
//! is, must be the value of the program.

use ruscom::compile;
use std::collections::HashMap;

const MEMORY_SIZE: usize = 1 << 20;
const DATA_START: usize = 0x1000;
const STEP_LIMIT: usize = 10_000_000;
const RETURN_TO_HOST: u64 = u64::MAX;

const RAX: usize = 0;
const RDX: usize = 3;
const RBP: usize = 8;
const RSP: usize = 9;

/// The register that `name` is a part of, and the width of the part in bits.
fn register(name: &str) -> Option<(usize, u32)> {
    let families: [[&str; 4]; 10] = [
        ["rax", "eax", "ax", "al"],
        ["rdi", "edi", "di", "dil"],
        ["rsi", "esi", "si", "sil"],
        ["rdx", "edx", "dx", "dl"],
        ["rcx", "ecx", "cx", "cl"],
        ["r8", "r8d", "r8w", "r8b"],
        ["r9", "r9d", "r9w", "r9b"],
        ["r10", "r10d", "r10w", "r10b"],
        ["rbp", "ebp", "bp", "bpl"],
        ["rsp", "esp", "sp", "spl"],
    ];
    let widths = [64, 32, 16, 8];
    for (index, family) in families.iter().enumerate() {
        for (part, width) in family.iter().zip(widths.iter()) {
            if *part == name {
                return Some((index, *width));
            }
        }
    }
    None
}

#[derive(Debug, Clone)]
enum Operand {
    Reg(usize, u32),
    Imm(i64),
    /// Memory at the address in `rax` plus a displacement, of a width in bits.
    Mem(u32, u64),
    /// The address of a symbol plus a displacement.
    Symbol(String, u64),
}

fn parse_operand(text: &str) -> Operand {
    let text = text.trim();
    if let Some((index, width)) = register(text) {
        return Operand::Reg(index, width);
    }
    if let Ok(value) = text.parse::<i64>() {
        return Operand::Imm(value);
    }
    let (width, rest) = if let Some(rest) = text.strip_prefix("QWORD PTR ") {
        (64, rest)
    } else if let Some(rest) = text.strip_prefix("DWORD PTR ") {
        (32, rest)
    } else if let Some(rest) = text.strip_prefix("WORD PTR ") {
        (16, rest)
    } else if let Some(rest) = text.strip_prefix("BYTE PTR ") {
        (8, rest)
    } else {
        panic!("operand not understood: {}", text);
    };
    if rest == "[rax]" {
        Operand::Mem(width, 0)
    } else if let Some(inner) = rest.strip_prefix("[rax+") {
        Operand::Mem(width, inner.trim_end_matches(']').parse().unwrap())
    } else {
        let open = rest.find('[').unwrap();
        let name = &rest[..open];
        let inside = rest[open + 1..].trim_end_matches(']');
        let disp = match inside.strip_prefix("rip+") {
            Some(d) => d.parse().unwrap(),
            None => {
                assert_eq!(inside, "rip");
                0
            }
        };
        Operand::Symbol(name.to_string(), disp)
    }
}

struct Instruction {
    name: String,
    operands: Vec<Operand>,
    target: String,
}

struct Machine {
    code: Vec<Instruction>,
    labels: HashMap<String, usize>,
    symbols: HashMap<String, u64>,
    memory: Vec<u8>,
    regs: [u64; 10],
    compared: (i64, i64),
}

impl Machine {
    /// Lays out the data of a listing and reads its instructions.
    fn load(listing: &str) -> Machine {
        let mut machine = Machine {
            code: Vec::new(),
            labels: HashMap::new(),
            symbols: HashMap::new(),
            memory: vec![0; MEMORY_SIZE],
            regs: [0; 10],
            compared: (0, 0),
        };
        let mut next_data = DATA_START;
        let mut in_text = false;
        for line in listing.lines() {
            let line = line.trim();
            if line.is_empty() || line == ".intel_syntax noprefix" || line.starts_with(".global ") {
                continue;
            }
            if line == ".section .rodata" || line == ".bss" {
                in_text = false;
            } else if line == ".text" {
                in_text = true;
            } else if let Some(name) = line.strip_suffix(':') {
                if in_text {
                    let known = machine.labels.insert(name.to_string(), machine.code.len());
                    assert!(known.is_none(), "label {} is set twice", name);
                } else {
                    machine.symbols.insert(name.to_string(), next_data as u64);
                }
            } else if let Some(text) = line.strip_prefix(".ascii \"") {
                let bytes = text.strip_suffix('"').unwrap().as_bytes();
                machine.memory[next_data..next_data + bytes.len()].copy_from_slice(bytes);
                next_data += bytes.len();
            } else if let Some(size) = line.strip_prefix(".zero ") {
                next_data += size.parse::<usize>().unwrap();
            } else {
                let (name, rest) = match line.split_once(char::is_whitespace) {
                    Some((name, rest)) => (name, rest.trim()),
                    None => (line, ""),
                };
                let jump = name == "je" || name == "jmp" || name == "call";
                let operands = if jump || rest.is_empty() {
                    Vec::new()
                } else {
                    rest.split(", ").map(parse_operand).collect()
                };
                machine.code.push(Instruction {
                    name: name.to_string(),
                    operands,
                    target: rest.trim_end_matches("@PLT").to_string(),
                });
            }
        }
        machine
    }

    fn read_memory(&self, address: u64, width: u32) -> u64 {
        let at = address as usize;
        let mut value: u64 = 0;
        for i in 0..(width / 8) as usize {
            value |= (self.memory[at + i] as u64) << (8 * i);
        }
        value
    }

    fn write_memory(&mut self, address: u64, width: u32, value: u64) {
        let at = address as usize;
        for i in 0..(width / 8) as usize {
            self.memory[at + i] = (value >> (8 * i)) as u8;
        }
    }

    fn read(&self, operand: &Operand) -> u64 {
        match operand {
            Operand::Reg(index, width) => {
                if *width == 64 {
                    self.regs[*index]
                } else {
                    self.regs[*index] & ((1u64 << width) - 1)
                }
            }
            Operand::Imm(value) => *value as u64,
            Operand::Mem(width, disp) => self.read_memory(self.regs[RAX] + disp, *width),
            Operand::Symbol(name, disp) => match self.symbols.get(name) {
                Some(address) => address + disp,
                None => panic!("symbol {} is not defined", name),
            },
        }
    }

    /// Writes a register as the machine does: a write of 32 bits clears the
    /// upper half, a narrower one leaves the rest of the register alone.
    fn write(&mut self, operand: &Operand, value: u64) {
        match operand {
            Operand::Reg(index, 64) => self.regs[*index] = value,
            Operand::Reg(index, 32) => self.regs[*index] = value & 0xffff_ffff,
            Operand::Reg(index, width) => {
                let mask = (1u64 << width) - 1;
                self.regs[*index] = (self.regs[*index] & !mask) | (value & mask);
            }
            Operand::Mem(width, disp) => self.write_memory(self.regs[RAX] + disp, *width, value),
            _ => panic!("cannot write to {:?}", operand),
        }
    }

    fn width(operand: &Operand) -> u32 {
        match operand {
            Operand::Reg(_, width) => *width,
            Operand::Mem(width, _) => *width,
            _ => 64,
        }
    }

    fn push(&mut self, value: u64) {
        self.regs[RSP] -= 8;
        self.write_memory(self.regs[RSP], 64, value);
    }

    fn pop(&mut self) -> u64 {
        let value = self.read_memory(self.regs[RSP], 64);
        self.regs[RSP] += 8;
        value
    }

    fn jump(&self, target: &str) -> usize {
        match self.labels.get(target) {
            Some(at) => *at,
            None => panic!("label {} is not defined", target),
        }
    }

    /// Calls `main` and gives what it leaves in `rax`.
    fn run(&mut self) -> u64 {
        self.regs[RSP] = (MEMORY_SIZE - 64) as u64;
        self.push(RETURN_TO_HOST);
        let mut pc = self.jump("main");
        for _ in 0..STEP_LIMIT {
            let name = self.code[pc].name.clone();
            let operands = self.code[pc].operands.clone();
            let target = self.code[pc].target.clone();
            pc += 1;
            match name.as_str() {
                "push" => {
                    let value = self.read(&operands[0]);
                    self.push(value);
                }
                "pop" => {
                    let value = self.pop();
                    self.write(&operands[0], value);
                }
                "mov" => {
                    assert_eq!(Machine::width(&operands[0]), Machine::width(&operands[1]));
                    let value = self.read(&operands[1]);
                    self.write(&operands[0], value);
                }
                "movsx" | "movsxd" => {
                    let from = Machine::width(&operands[1]);
                    let value = self.read(&operands[1]);
                    let shift = 64 - from;
                    let extended = (((value << shift) as i64) >> shift) as u64;
                    self.write(&operands[0], extended);
                }
                "movzb" => {
                    let value = self.read(&operands[1]) & 0xff;
                    self.write(&operands[0], value);
                }
                "lea" => {
                    let value = self.read(&operands[1]);
                    self.write(&operands[0], value);
                }
                "add" => {
                    let value = self.read(&operands[0]).wrapping_add(self.read(&operands[1]));
                    self.write(&operands[0], value);
                }
                "sub" => {
                    let value = self.read(&operands[0]).wrapping_sub(self.read(&operands[1]));
                    self.write(&operands[0], value);
                }
                "imul" => {
                    let value = self.read(&operands[0]).wrapping_mul(self.read(&operands[1]));
                    self.write(&operands[0], value);
                }
                "cqo" => {
                    self.regs[RDX] = if (self.regs[RAX] as i64) < 0 { u64::MAX } else { 0 };
                }
                "idiv" => {
                    let high = (self.regs[RDX] as i64) as i128;
                    let dividend = (high << 64) | (self.regs[RAX] as i128);
                    let divisor = (self.read(&operands[0]) as i64) as i128;
                    assert!(divisor != 0, "division by zero");
                    self.regs[RAX] = (dividend / divisor) as u64;
                    self.regs[RDX] = (dividend % divisor) as u64;
                }
                "cmp" => {
                    self.compared =
                        (self.read(&operands[0]) as i64, self.read(&operands[1]) as i64);
                }
                "sete" => {
                    let value = (self.compared.0 == self.compared.1) as u64;
                    self.write(&operands[0], value);
                }
                "setne" => {
                    let value = (self.compared.0 != self.compared.1) as u64;
                    self.write(&operands[0], value);
                }
                "setl" => {
                    let value = (self.compared.0 < self.compared.1) as u64;
                    self.write(&operands[0], value);
                }
                "setle" => {
                    let value = (self.compared.0 <= self.compared.1) as u64;
                    self.write(&operands[0], value);
                }
                "je" => {
                    if self.compared.0 == self.compared.1 {
                        pc = self.jump(&target);
                    }
                }
                "jmp" => pc = self.jump(&target),
                "call" => {
                    self.push(pc as u64);
                    pc = self.jump(&target);
                }
                "ret" => {
                    let back = self.pop();
                    if back == RETURN_TO_HOST {
                        return self.regs[RAX];
                    }
                    pc = back as usize;
                }
                _ => panic!("instruction not understood: {}", name),
            }
        }
        panic!("the program did not end within {} steps", STEP_LIMIT);
    }
}

/// Compiles `source_code`, runs it, and gives the exit status of `main`.
fn run_program(source_code: &str) -> u8 {
    let listing = match compile(source_code) {
        Ok(listing) => listing,
        Err(e) => panic!("{}\n{}", source_code, e.to_string()),
    };
    let mut machine = Machine::load(&listing);
    let base = machine.regs[RBP];
    let value = machine.run();
    assert_eq!(machine.regs[RBP], base, "the frame pointer was not restored");
    (value & 0xff) as u8
}

fn check_return_num(source_code: &str, expect: u8) {
    println!("{}", source_code);
    let answer = run_program(source_code);
    println!(" -> {} (expected: {})", answer, expect);
    assert_eq!(expect, answer);
}

#[test]
fn calc_unary() {
    check_return_num("fn main() { return 0; }", 0);
    check_return_num("fn main() { return 123; }", 123);
    check_return_num("fn main() { return (123); }", 123);
}

#[test]
fn calc_binary() {
    check_return_num("fn main() { return 1 + 2; }", 3);
    check_return_num("fn main() { return 3 - 2; }", 1);
    check_return_num("fn main() { return 2 * 3; }", 6);
    check_return_num("fn main() { return 6 / 2; }", 3);
    check_return_num("fn main() { return 7 == 7; }", 1);
    check_return_num("fn main() { return 7 == 8; }", 0);
    check_return_num("fn main() { return 7 != 7; }", 0);
    check_return_num("fn main() { return 7 != 8; }", 1);
    check_return_num("fn main() { return 7 < 8; }", 1);
    check_return_num("fn main() { return 7 <= 7; }", 1);
    check_return_num("fn main() { return 7 <= 8; }", 1);
    check_return_num("fn main() { return 7 < 7; }", 0);
    check_return_num("fn main() { return 7 <= 6; }", 0);
    check_return_num("fn main() { return 7 <= 6; }", 0);
    check_return_num("fn main() { return 8 > 7; }", 1);
    check_return_num("fn main() { return 7 >= 7; }", 1);
    check_return_num("fn main() { return 8 >= 7; }", 1);
    check_return_num("fn main() { return 7 > 7; }", 0);
    check_return_num("fn main() { return 6 >= 7; }", 0);
    check_return_num("fn main() { return 6 >= 7; }", 0);
}

#[test]
fn calc_bool() {
    check_return_num("fn main() {\
                          let a: bool;\
                          a = true;\
                          if a {\
                              return 2;\
                          }\
                          return 3;\
                      }", 2);
    check_return_num("fn main() {\
                          let a: bool;\
                          a = false;\
                          if a {\
                              return 2;\
                          }\
                          return 3;\
                      }", 3);
}

#[test]
fn calc_combination() {
    check_return_num("fn main() { return -1 + 2; }", 1);
    check_return_num("fn main() { return -(1 + 2) + 4; }", 1);
    check_return_num("fn main() { return 2 * 3 + 6 / 2; }", 9);
    check_return_num("fn main() { return 2 * (3 + 6) / 3; }", 6);
}

#[test]
fn calc_local_variable() {
    check_return_num("fn main() {\
                          let a: i32;\
                          a = 1;\
                          return a;\
                      }", 1);
    check_return_num("fn main() {\
                          let z: i32;\
                          z = 1;\
                          return z;\
                      }", 1);
    check_return_num("fn main() {\
                          let n: i32;\
                          n = 10 + 2;\
                          return n * 2;\
                      }", 24);
    check_return_num("fn main() {\
                          let abc: i32;\
                          let def: i32;\
                          abc = 2;\
                          def = 3;\
                          return abc + def;\
                      }", 5);
    check_return_num("fn main() {\
                          let abc: i32;\
                          let def: i32;\
                          abc = 2;\
                          def = abc + 3;\
                          return def;\
                      }", 5);
}

#[test]
fn calc_type() {
    check_return_num("fn main() {\
                          let a: i8;\
                          a = 1;\
                          return a;\
                      }", 1);
    check_return_num("fn main() {\
                          let a: i16;\
                          a = 1;\
                          return a;\
                      }", 1);
    check_return_num("fn main() {\
                          let a: i32;\
                          a = 1;\
                          return a;\
                      }", 1);
    check_return_num("fn main() {\
                          let a: i64;\
                          a = 1;\
                          return a;\
                      }", 1);
    // To check upper bits are cleared.
    check_return_num("static a: i8;\
                      fn main() {\
                          let b: i8;\
                          a = 1;\
                          b = 1;\
                          return a == b;\
                      }", 1);
    check_return_num("static a: i16;\
                      fn main() {\
                          let b: i16;\
                          a = 1;\
                          b = 1;\
                          return a == b;\
                      }", 1);
}

#[test]
fn calc_global_variable() {
    check_return_num("static a: i32;\
                      fn main() {\
                          a = 1;\
                          return a;\
                      }", 1);
    check_return_num("static a: [i32; 10];\
                      fn main() {\
                          a[8] = 1;\
                          a[9] = 2;\
                          return a[8] + a[9];\
                      }", 3);
    check_return_num("static a: i32;\
                      fn main() {\
                          let b: i32;\
                          a = 1;\
                          b = 2;\
                          return a + b;\
                      }", 3);
    check_return_num("static a: [i32; 2];\
                      static b: [i32; 2];\
                      fn main() {\
                          a[1] = 1;\
                          b[0] = 2;\
                          return a[1] + b[0];\
                      }", 3);
    check_return_num("static a: [i8; 4];\
                      static b: i32;\
                      fn main() {\
                          b = 2;\
                          a[3] = 1;\
                          return a[3] + b;\
                      }", 3);
}

#[test]
fn calc_control() {
    check_return_num("fn main() {\
                          let a: i32;\
                          a = 1;\
                          if 1 == 1 {\
                              a = 2;\
                          } else {\
                              a = 3;\
                          }\
                          return a;\
                      }", 2);
    check_return_num("fn main() {\
                          let a: i32;\
                          a = 1;\
                          if 1 == 2 {\
                              a = 2;\
                          } else {\
                              a = 3;\
                          }\
                          return a;\
                      }", 3);
    check_return_num("fn main() {\
                          let a: i32;\
                          let b: i32;\
                          a = 1;\
                          if 1 == 1 {\
                              b = 1;\
                              a = b + 1;\
                          }\
                          return a;\
                      }", 2);
    check_return_num("fn main() {\
                          let a: i32;\
                          a = 1;\
                          if 1 == 1 {\
                              a = a + 1;\
                          }\
                          if 1 == 2 {\
                              a = a + 1;\
                          }\
                          if 2 == 2 {\
                              a = a + 1;\
                              if 3 == 3 {\
                                  a = a + 1;\
                              }\
                          }\
                          return a;\
                      }", 4);
    check_return_num("fn main() {\
                          let a: i32;\
                          a = 1;\
                          while a != 10 {\
                              a = a + 1;\
                          }\
                          return a;\
                      }", 10);
}

#[test]
fn calc_func() {
    check_return_num("fn foo() {\
                          return 3;\
                      }\
                      fn main() {\
                          return foo();\
                      }", 3);
    check_return_num("fn foo() {\
                          let c: i32;\
                          let d: i32;\
                          c = 3;\
                          d = 4;\
                          return c + d;\
                      }\
                      fn main() {\
                          let a: i32;\
                          let b: i32;\
                          a = 1;\
                          b = 2;\
                          return a + b + foo();\
                      }", 10);
    check_return_num("fn foo() {\
                          let a: i32;\
                          let b: i32;\
                          a = 3;\
                          b = 4;\
                          return a + b;\
                      }\
                      fn main() {\
                          let a: i32;\
                          let b: i32;\
                          a = 1;\
                          b = 2;\
                          return a + b + foo();\
                      }", 10);
    check_return_num("fn foo(a: i32) {\
                          return a * 2;\
                      }\
                      fn main() {\
                          return foo(2);\
                      }", 4);
    check_return_num("fn foo(a: i32, b: i32, c: i32, d: i32, e: i32, f: i32) {\
                          return (a + b + c + d + e + f) * 2;\
                      }\
                      fn main() {\
                          return foo(1, 2, 3, 4, 5, 6);\
                      }", 42);
}

#[test]
fn calc_reference() {
    check_return_num("fn main() {\
                          let a: i32;\
                          let b: &i32;\
                          a = 2;\
                          b = &a;\
                          return *b;\
                      }", 2);
    check_return_num("fn foo() {\
                          let a: i32;\
                          let b: &i32;\
                          b = &a;\
                          *b = 3;\
                          return a;\
                      }\
                      fn main() {\
                          return foo();\
                      }", 3);
}

#[test]
fn calc_array() {
    check_return_num("fn main() {\
                          let a: [i32; 10];\
                          a[0] = 1;\
                          a[1] = 2;\
                          a[2] = 3;\
                          return a[0] + a[1] + a[2];\
                      }", 6);
    check_return_num("fn foo() {\
                          let a: [i32; 4];\
                          a[2] = 3;\
                          return a[2];\
                      }\
                      fn main() {\
                          return foo();\
                      }", 3);
    check_return_num("fn main() {\
                          let a: [i32; 4];\
                          let b: [i32; 4];\
                          a[3] = 2;\
                          b[3] = 3;\
                          return a[3] + b[3];\
                      }", 5);
}

#[test]
fn check_comment() {
    check_return_num("fn main() {\
                          // This is\n\
                          // one line\n\
                          // comment.\n\
                          return 1;\
                      }", 1);
    check_return_num("fn main() {\
                          /*\
                           * This is\
                           * multiple line\
                           * comment.\
                           */\
                          return 1;\
                      }", 1);
    check_return_num("fn main() {\
                          /* No content */\
                          /**/\
                          return 1;\
                      }", 1);
}

#[test]
fn check_format() {
    check_return_num("fn main() { return 1+2+3; }", 6);
    check_return_num("fn main() { return  1 + 2 + 3 ; }", 6);
    check_return_num("fn main() { return 1 +  2   +    3; }", 6);
    check_return_num("fn main() { return (1+2)+3; }", 6);
    check_return_num("fn main() { return 1+(2+3); }", 6);
    check_return_num("fn main() { return (1+2+3); }", 6);
}

#[test]
fn run_comparisons_in_both_directions() {
    for a in 0..4 {
        for b in 0..4 {
            let greater = run_program(&format!("fn main() {{ return {} > {}; }}", a, b));
            let less = run_program(&format!("fn main() {{ return {} < {}; }}", b, a));
            assert_eq!(greater, less);
            assert_eq!(greater, (a > b) as u8);
            let at_least = run_program(&format!("fn main() {{ return {} >= {}; }}", a, b));
            let at_most = run_program(&format!("fn main() {{ return {} <= {}; }}", b, a));
            assert_eq!(at_least, at_most);
            assert_eq!(at_least, (a >= b) as u8);
        }
    }
    check_return_num("fn main() { let a: i64; let b: i64; a = 0 - 3; b = 2; return a < b; }", 1);
    check_return_num("fn main() { let a: i64; let b: i64; a = 0 - 3; b = 2; return b > a; }", 1);
    check_return_num("fn main() { let a: i64; let b: i64; a = 0 - 3; b = 2; return a >= b; }", 0);
}

#[test]
fn run_signed_arithmetic() {
    check_return_num("fn main() { return 0 - 1; }", 255);
    check_return_num("fn main() { return -7 / 2; }", 253);
    check_return_num("fn main() { return (0 - 8) / (0 - 2); }", 4);
    check_return_num("fn main() { return 300; }", 44);
    check_return_num("fn main() { let a: i8; a = 0 - 2; return a * a; }", 4);
    check_return_num("fn main() { let a: i8; a = 0 - 2; return a == 0 - 2; }", 1);
    check_return_num("fn main() { let a: i16; a = 0 - 2; return a == 0 - 2; }", 1);
    check_return_num("fn main() { let a: i32; a = 0 - 2; return a == 0 - 2; }", 1);
    check_return_num("fn main() { let a: i8; a = 0 - 1; return a < 0; }", 1);
    check_return_num("fn main() { let a: i32; let b: i32; a = 0 - 3; b = 2; return a < b; }", 1);
    check_return_num("static a: i16; fn main() { a = 0 - 300; return a / 3 == 0 - 100; }", 1);
    check_return_num("fn main() { let a: i64; a = 0 - 2; return a == 0 - 2; }", 1);
}

#[test]
fn run_globals_are_shared_by_functions() {
    check_return_num(
        "static a: i32;\
         static b: [i8; 3];\
         fn set() { a = 5; b[2] = 6; return 0; }\
         fn get() { return a + b[2]; }\
         fn main() { set(); a = a + 1; return get(); }",
        12,
    );
    check_return_num(
        "static g: i32;\
         fn main() { let p: &i32; p = &g; *p = 9; return g; }",
        9,
    );
}

#[test]
fn run_narrow_values_leave_their_neighbours_alone() {
    check_return_num(
        "fn main() {\
             let a: i8; let b: i8; let c: i16; let d: i32;\
             d = 100000; c = 1000; b = 7; a = 3;\
             return (d == 100000) + (c == 1000) + (b == 7) + (a == 3);\
         }",
        4,
    );
    check_return_num(
        "static a: i8; static b: i8;\
         fn main() { b = 1; a = 0 - 1; return b; }",
        1,
    );
}

#[test]
fn run_arrays_do_not_alias() {
    check_return_num(
        "fn main() {\
             let a: [i32; 3]; let b: [i32; 3];\
             a[0] = 1; a[1] = 2; a[2] = 3;\
             b[0] = 10; b[1] = 20; b[2] = 30;\
             return a[0] + a[1] + a[2] + b[0] + b[1] + b[2];\
         }",
        66,
    );
    check_return_num(
        "static a: [i8; 2]; static b: [i8; 2];\
         fn main() {\
             a[0] = 1; a[1] = 2; b[0] = 4; b[1] = 8;\
             return a[0] + a[1] + b[0] + b[1];\
         }",
        15,
    );
    check_return_num(
        "fn main() { let a: [i32; 10]; a[8] = 1; a[9] = 2; return a[8] + a[9]; }",
        3,
    );
}

#[test]
fn run_references() {
    check_return_num("fn main() { let a: i32; let b: &i32; b = &a; *b = 3; return a; }", 3);
    check_return_num(
        "fn main() {\
             let a: i32; let b: &i32; let c: &&i32;\
             a = 1; b = &a; c = &b; **c = 4;\
             return a + **c;\
         }",
        8,
    );
    check_return_num(
        "fn set(p: &i32) { *p = 7; return 0; }\
         fn main() { let a: i32; a = 1; set(&a); return a; }",
        7,
    );
}

#[test]
fn run_parameters_of_every_width() {
    check_return_num(
        "fn foo(a: i8, b: i8, c: i8, d: i8, e: i8, f: i8) {\
             return a + b * 2 + c * 3 + d * 4 + e * 5 + f * 6;\
         }\
         fn main() { return foo(1, 2, 3, 4, 5, 6); }",
        91,
    );
    check_return_num(
        "fn foo(a: i16, b: i16, c: i16, d: i16, e: i16, f: i16) {\
             return a + b * 2 + c * 3 + d * 4 + e * 5 + f * 6;\
         }\
         fn main() { return foo(1, 2, 3, 4, 5, 6); }",
        91,
    );
    check_return_num(
        "fn foo(a: i64, b: i32, c: i16, d: i8, e: bool, f: i64) {\
             return a + b * 2 + c * 3 + d * 4 + e * 5 + f * 6;\
         }\
         fn main() { return foo(1, 2, 3, 4, true, 6); }",
        71,
    );
}

#[test]
fn run_calls_as_arguments() {
    check_return_num(
        "fn twice(a: i32) { return a * 2; }\
         fn add(a: i32, b: i32) { return a + b; }\
         fn main() { return add(twice(twice(3)), 4); }",
        16,
    );
    check_return_num(
        "fn first(a: i32, b: i32, c: i32) { return a; }\
         fn main() { let x: i32; x = 5; return first(x + 1, x * 2, x - 1); }",
        6,
    );
}

#[test]
fn run_recursion() {
    check_return_num(
        "fn fact(n: i32) { if n <= 1 { return 1; } return n * fact(n - 1); }\
         fn main() { return fact(5); }",
        120,
    );
    check_return_num(
        "fn fib(n: i32) { if n < 2 return n; return fib(n - 1) + fib(n - 2); }\
         fn main() { return fib(11); }",
        89,
    );
}

#[test]
fn run_loops_and_conditionals() {
    check_return_num(
        "fn main() {\
             let i: i32; let sum: i32;\
             i = 0; sum = 0;\
             while i < 10 {\
                 if i / 2 * 2 == i { sum = sum + i; } else { sum = sum + 1; }\
                 i = i + 1;\
             }\
             return sum;\
         }",
        25,
    );
    check_return_num(
        "fn main() {\
             let i: i32; let j: i32; let n: i32;\
             i = 0; n = 0;\
             while i != 4 { j = 0; while j != 3 { n = n + 1; j = j + 1; } i = i + 1; }\
             if n == 12 { if i == 4 { return 1; } }\
             return 0;\
         }",
        1,
    );
    check_return_num("fn main() { let a: i32; a = 1; while a != 10 { a = a + 1; } return a; }", 10);
}

#[test]
fn run_function_without_return() {
    check_return_num(
        "static g: i32;\
         fn set() { g = 3; }\
         fn bump(by: i32) { if by != 0 { g = g + by; } }\
         fn main() { set(); bump(4); bump(0); return g; }",
        7,
    );
}

#[test]
fn run_reading_through_a_pointer_reads_no_more_than_it_points_to() {
    check_return_num(
        "fn main() {\
             let x: i64; let a: i8; let p: &i8;\
             x = 0 - 1; a = 5; p = &a;\
             return *p == 5;\
         }",
        1,
    );
    check_return_num(
        "fn main() {\
             let x: i64; let a: i16; let p: &i16;\
             x = 0 - 1; a = 0 - 7; p = &a;\
             return *p == 0 - 7;\
         }",
        1,
    );
    check_return_num(
        "static g: [i32; 2];\
         fn get(p: &i32) { return *p; }\
         fn main() { g[0] = 0 - 1; g[1] = 40; return get(&g[1]) + 2; }",
        42,
    );
}

#[test]
fn run_locals_of_mixed_widths() {
    check_return_num(
        "fn main() {\
             let a: i8; let b: i64; let c: i16; let d: i32; let e: bool; let f: &i64;\
             a = 1; b = 2; c = 3; d = 4; e = true; f = &b; *f = 20;\
             return a + b + c + d + e;\
         }",
        29,
    );
}
