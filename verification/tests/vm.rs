use frawk::bytecode::{check_program, CmpOp, Instr, MapKind, Program, RegCounts, ScalarKind};
use frawk::error::VmError;
use frawk::float::{Float1Op, Float2Op, FloatCmpOp, FloatVal};
use frawk::host::{FloatHost, IoHost, ReadOutcome};
use frawk::interp::{Interp, RunOutcome};
use frawk::printf::FmtArg;
use frawk::str_impl::Str;
use frawk::vars::Variable;

fn s(text: &str) -> Str {
    Str::from_vec(text.as_bytes().to_vec())
}

fn counts() -> RegCounts {
    RegCounts {
        ints: 8,
        floats: 4,
        strs: 8,
        maps_int_int: 2,
        maps_int_float: 2,
        maps_int_str: 2,
        maps_str_int: 2,
        maps_str_float: 2,
        maps_str_str: 2,
        iters_int: 2,
        iters_str: 2,
    }
}

struct Source {
    data: Vec<u8>,
    pos: usize,
}

struct Sink {
    path: Vec<u8>,
    data: Vec<u8>,
}

struct TestHost {
    stdin: Vec<u8>,
    files: Vec<(Vec<u8>, Vec<u8>)>,
    sources: Vec<Source>,
    sinks: Vec<Sink>,
    stdout: Vec<u8>,
    fail_stdout: bool,
    chunk: usize,
}

impl TestHost {
    fn new(stdin: &str) -> TestHost {
        TestHost {
            stdin: stdin.as_bytes().to_vec(),
            files: Vec::new(),
            sources: Vec::new(),
            sinks: Vec::new(),
            stdout: Vec::new(),
            fail_stdout: false,
            chunk: 3,
        }
    }

    fn with_file(mut self, name: &str, content: &str) -> TestHost {
        self.files.push((name.as_bytes().to_vec(), content.as_bytes().to_vec()));
        self
    }

    fn stdout_text(&self) -> String {
        String::from_utf8(self.stdout.clone()).unwrap()
    }

    fn sink_text(&self, name: &str) -> Option<String> {
        for sk in &self.sinks {
            if sk.path == name.as_bytes() {
                return Some(String::from_utf8(sk.data.clone()).unwrap());
            }
        }
        None
    }
}

impl IoHost for TestHost {
    fn open_read(&mut self, path: &Vec<u8>) -> Option<u64> {
        let data = if path.is_empty() {
            self.stdin.clone()
        } else {
            let mut found: Option<Vec<u8>> = None;
            for (n, c) in &self.files {
                if n == path {
                    found = Some(c.clone());
                }
            }
            match found {
                Some(c) => c,
                None => return None,
            }
        };
        self.sources.push(Source { data, pos: 0 });
        Some((self.sources.len() - 1) as u64)
    }

    fn read_chunk(&mut self, h: u64) -> ReadOutcome {
        let src = &mut self.sources[h as usize];
        if src.pos >= src.data.len() {
            return ReadOutcome::End;
        }
        let end = (src.pos + self.chunk).min(src.data.len());
        let part = src.data[src.pos..end].to_vec();
        src.pos = end;
        ReadOutcome::Data(part)
    }

    fn close_read(&mut self, _h: u64) {}

    fn open_write(&mut self, path: &Vec<u8>, _append: bool) -> Option<u64> {
        self.sinks.push(Sink { path: path.clone(), data: Vec::new() });
        Some((self.sinks.len() - 1) as u64)
    }

    fn write(&mut self, h: u64, data: &Vec<u8>) -> bool {
        self.sinks[h as usize].data.extend_from_slice(data);
        true
    }

    fn write_stdout(&mut self, data: &Vec<u8>) -> bool {
        if self.fail_stdout {
            return false;
        }
        self.stdout.extend_from_slice(data);
        true
    }

    fn close_write(&mut self, _h: u64) -> bool {
        true
    }
}

fn f(x: FloatVal) -> f64 {
    f64::from_bits(x.bits)
}

fn fv(x: f64) -> FloatVal {
    FloatVal { bits: x.to_bits() }
}

impl FloatHost for TestHost {
    fn f_add(&mut self, a: FloatVal, b: FloatVal) -> FloatVal {
        fv(f(a) + f(b))
    }

    fn f_sub(&mut self, a: FloatVal, b: FloatVal) -> FloatVal {
        fv(f(a) - f(b))
    }

    fn f_mul(&mut self, a: FloatVal, b: FloatVal) -> FloatVal {
        fv(f(a) * f(b))
    }

    fn f_div(&mut self, a: FloatVal, b: FloatVal) -> FloatVal {
        fv(f(a) / f(b))
    }

    fn f_mod(&mut self, a: FloatVal, b: FloatVal) -> FloatVal {
        fv(f(a) % f(b))
    }

    fn f1(&mut self, op: Float1Op, x: FloatVal) -> FloatVal {
        let v = f(x);
        fv(match op {
            Float1Op::Sin => v.sin(),
            Float1Op::Cos => v.cos(),
            Float1Op::Exp => v.exp(),
            Float1Op::Log => v.ln(),
            Float1Op::Sqrt => v.sqrt(),
            Float1Op::Atan => v.atan(),
        })
    }

    fn f2(&mut self, op: Float2Op, a: FloatVal, b: FloatVal) -> FloatVal {
        let (x, y) = (f(a), f(b));
        fv(match op {
            Float2Op::Atan2 => x.atan2(y),
            Float2Op::Pow => x.powf(y),
        })
    }

    fn f_cmp(&mut self, op: FloatCmpOp, a: FloatVal, b: FloatVal) -> bool {
        let (x, y) = (f(a), f(b));
        match op {
            FloatCmpOp::Lt => x < y,
            FloatCmpOp::Gt => x > y,
            FloatCmpOp::Le => x <= y,
            FloatCmpOp::Ge => x >= y,
            FloatCmpOp::Eq => x == y,
        }
    }

    fn int_to_float(&mut self, i: i64) -> FloatVal {
        fv(i as f64)
    }

    fn float_to_int(&mut self, x: FloatVal) -> i64 {
        f(x) as i64
    }

    fn parse_float(&mut self, text: &Vec<u8>) -> FloatVal {
        let t = std::str::from_utf8(text).unwrap_or("0");
        fv(t.parse::<f64>().unwrap_or(0.0))
    }

    fn format_float(&mut self, x: FloatVal) -> Vec<u8> {
        let v = f(x);
        if v.is_finite() {
            let mut b = ryu::Buffer::new();
            let t = b.format(v);
            if t.ends_with(".0") {
                t[..t.len() - 2].as_bytes().to_vec()
            } else {
                t.as_bytes().to_vec()
            }
        } else {
            format!("{}", v).into_bytes()
        }
    }

    fn format_float_conv(
        &mut self,
        conv: u8,
        has_prec: bool,
        prec: usize,
        plus: bool,
        space: bool,
        _alt: bool,
        x: FloatVal,
    ) -> Vec<u8> {
        let v = f(x);
        let p = if has_prec { prec } else { 6 };
        let body = match conv {
            b'f' => format!("{:.*}", p, v),
            b'e' => format!("{:.*e}", p, v),
            b'E' => format!("{:.*E}", p, v),
            _ => {
                let mut b = ryu::Buffer::new();
                b.format(v).to_string()
            },
        };
        let signed = if v >= 0.0 && plus {
            format!("+{}", body)
        } else if v >= 0.0 && space {
            format!(" {}", body)
        } else {
            body
        };
        signed.into_bytes()
    }

    fn rand_unit(&mut self, bits: u64) -> FloatVal {
        fv((bits >> 11) as f64 * (1.0 / 9007199254740992.0))
    }
}

fn run_prog(prog: &Program, host: &mut TestHost, inputs: Vec<&str>) -> Result<RunOutcome, VmError> {
    let c = counts();
    assert!(check_program(prog, &c));
    let mut vm = Interp::new(c, inputs.into_iter().map(s).collect());
    vm.run(prog, host, 1_000_000)
}

#[test]
fn scenario_fields_and_record_count() {
    let prog = Program {
        funcs: vec![vec![
            Instr::StoreConstStr(0, s(",")),
            Instr::StoreVarStr(Variable::FS, 0),
            Instr::NextLineStdinFused,
            Instr::ReadErrStdin(0),
            Instr::StoreConstInt(1, 1),
            Instr::CmpInt(CmpOp::Eq, 2, 0, 1),
            Instr::JmpIf(2, 8),
            Instr::Jmp(21),
            Instr::LoadVarInt(3, Variable::NR),
            Instr::AddInt(3, 3, 1),
            Instr::StoreVarInt(Variable::NR, 3),
            Instr::IntToStr(1, 3),
            Instr::StoreConstInt(4, 2),
            Instr::GetColumn(2, 4),
            Instr::StoreConstStr(3, s(" ")),
            Instr::StoreConstStr(4, s("\n")),
            Instr::Concat(5, 1, 3),
            Instr::Concat(5, 5, 2),
            Instr::Concat(5, 5, 4),
            Instr::PrintStdout(5),
            Instr::Jmp(2),
            Instr::Halt,
        ]],
        main: 0,
    };
    let mut host = TestHost::new("a,b,c\nd,e,f\n");
    assert_eq!(run_prog(&prog, &mut host, vec![]), Ok(RunOutcome::Done));
    assert_eq!(host.stdout_text(), "1 b\n2 e\n");
}

#[test]
fn scenario_accumulate_first_fields() {
    let prog = Program {
        funcs: vec![vec![
            Instr::NextLineStdinFused,
            Instr::ReadErrStdin(0),
            Instr::StoreConstInt(1, 1),
            Instr::CmpInt(CmpOp::Eq, 2, 0, 1),
            Instr::JmpIf(2, 6),
            Instr::Jmp(10),
            Instr::StoreConstInt(3, 1),
            Instr::GetColumn(1, 3),
            Instr::Concat(0, 0, 1),
            Instr::Jmp(0),
            Instr::StoreConstStr(2, s("\n")),
            Instr::Concat(0, 0, 2),
            Instr::PrintStdout(0),
            Instr::Halt,
        ]],
        main: 0,
    };
    let mut host = TestHost::new("x\ny\nz\n");
    assert_eq!(run_prog(&prog, &mut host, vec![]), Ok(RunOutcome::Done));
    assert_eq!(host.stdout_text(), "xyz\n");
}

#[test]
fn scenario_split_and_iterate() {
    let prog = Program {
        funcs: vec![vec![
            Instr::NextLineStdinFused,
            Instr::StoreConstInt(0, 0),
            Instr::GetColumn(0, 0),
            Instr::StoreConstStr(1, s(":")),
            Instr::SplitInt(1, 0, 0, 1),
            Instr::StoreConstInt(2, 1),
            Instr::StoreConstInt(3, 1),
            Instr::CmpInt(CmpOp::Le, 4, 2, 1),
            Instr::JmpIf(4, 10),
            Instr::Jmp(16),
            Instr::Lookup(MapKind::IntStr, 2, 0, 2),
            Instr::StoreConstStr(3, s("\n")),
            Instr::Concat(2, 2, 3),
            Instr::PrintStdout(2),
            Instr::AddInt(2, 2, 3),
            Instr::Jmp(7),
            Instr::Halt,
        ]],
        main: 0,
    };
    let mut host = TestHost::new("p:q:r\n");
    assert_eq!(run_prog(&prog, &mut host, vec![]), Ok(RunOutcome::Done));
    assert_eq!(host.stdout_text(), "p\nq\nr\n");
}

#[test]
fn scenario_gsub_banana() {
    let prog = Program {
        funcs: vec![vec![
            Instr::NextLineStdinFused,
            Instr::StoreConstInt(0, 0),
            Instr::GetColumn(0, 0),
            Instr::StoreConstStr(1, s("a")),
            Instr::StoreConstStr(2, s("bb")),
            Instr::GSub(1, 1, 2, 0),
            Instr::StoreConstStr(3, s("\n")),
            Instr::Concat(0, 0, 3),
            Instr::PrintStdout(0),
            Instr::Halt,
        ]],
        main: 0,
    };
    let mut host = TestHost::new("banana\n");
    assert_eq!(run_prog(&prog, &mut host, vec![]), Ok(RunOutcome::Done));
    assert_eq!(host.stdout_text(), "bbbnbbnbb\n");
}

fn seeded_rand_prog() -> Program {
    Program {
        funcs: vec![vec![
            Instr::StoreConstInt(0, 42),
            Instr::Srand(1, 0),
            Instr::Rand(0),
            Instr::StoreConstFloat(1, FloatVal { bits: 1000.0f64.to_bits() }),
            Instr::MulFloat(0, 0, 1),
            Instr::FloatToInt(2, 0),
            Instr::IntToStr(0, 2),
            Instr::StoreConstStr(1, s("\n")),
            Instr::Concat(0, 0, 1),
            Instr::PrintStdout(0),
            Instr::Halt,
        ]],
        main: 0,
    }
}

#[test]
fn scenario_seeded_rand_deterministic() {
    let prog = seeded_rand_prog();
    let mut host1 = TestHost::new("");
    let mut host2 = TestHost::new("");
    assert_eq!(run_prog(&prog, &mut host1, vec![]), Ok(RunOutcome::Done));
    assert_eq!(run_prog(&prog, &mut host2, vec![]), Ok(RunOutcome::Done));
    assert_eq!(host1.stdout_text(), host2.stdout_text());
    assert!(host1.stdout_text().trim_end().parse::<i64>().is_ok());
}

#[test]
fn seeded_streams_identical_across_fresh_vms() {
    let prog = Program {
        funcs: vec![vec![
            Instr::StoreConstInt(0, 7),
            Instr::Srand(1, 0),
            Instr::Rand(0),
            Instr::FloatToStr(0, 0),
            Instr::PrintStdout(0),
            Instr::Rand(1),
            Instr::FloatToStr(1, 1),
            Instr::PrintStdout(1),
            Instr::Rand(2),
            Instr::FloatToStr(2, 2),
            Instr::PrintStdout(2),
            Instr::Halt,
        ]],
        main: 0,
    };
    let mut host1 = TestHost::new("");
    let mut host2 = TestHost::new("");
    assert_eq!(run_prog(&prog, &mut host1, vec![]), Ok(RunOutcome::Done));
    assert_eq!(run_prog(&prog, &mut host2, vec![]), Ok(RunOutcome::Done));
    assert_eq!(host1.stdout_text(), host2.stdout_text());
}

fn pipe_prog() -> Program {
    Program {
        funcs: vec![vec![
            Instr::StoreConstStr(0, s("one\n")),
            Instr::PrintStdout(0),
            Instr::StoreConstStr(1, s("x")),
            Instr::StoreConstStr(2, s("out")),
            Instr::Print(1, 2, false),
            Instr::StoreConstStr(3, s("two\n")),
            Instr::PrintStdout(3),
            Instr::Halt,
        ]],
        main: 0,
    }
}

#[test]
fn writes_reach_stdout_and_named_sink() {
    let prog = pipe_prog();
    let mut host = TestHost::new("");
    assert_eq!(run_prog(&prog, &mut host, vec![]), Ok(RunOutcome::Done));
    assert_eq!(host.stdout_text(), "one\ntwo\n");
    assert_eq!(host.sink_text("out"), Some("x".to_string()));
}

#[test]
fn scenario_broken_pipe_exits_successfully() {
    let prog = pipe_prog();
    let mut host = TestHost::new("");
    host.fail_stdout = true;
    assert_eq!(run_prog(&prog, &mut host, vec![]), Ok(RunOutcome::BrokenPipe));
    assert_eq!(host.stdout_text(), "");
    assert_eq!(host.sink_text("out"), None);
}

#[test]
fn next_file_resets_per_file_variables() {
    let prog = Program {
        funcs: vec![vec![
            Instr::NextLineStdinFused,
            Instr::LoadVarInt(0, Variable::FNR),
            Instr::StoreConstInt(1, 1),
            Instr::AddInt(0, 0, 1),
            Instr::StoreVarInt(Variable::FNR, 0),
            Instr::NextFile,
            Instr::LoadVarInt(2, Variable::FNR),
            Instr::IntToStr(0, 2),
            Instr::StoreConstStr(1, s("|")),
            Instr::Concat(0, 0, 1),
            Instr::PrintStdout(0),
            Instr::NextLineStdinFused,
            Instr::LoadVarStr(2, Variable::FILENAME),
            Instr::PrintStdout(2),
            Instr::Halt,
        ]],
        main: 0,
    };
    let mut host = TestHost::new("").with_file("f1", "l1\nl2\n").with_file("f2", "m1\n");
    assert_eq!(run_prog(&prog, &mut host, vec!["f1", "f2"]), Ok(RunOutcome::Done));
    assert_eq!(host.stdout_text(), "0|f2");
}

#[test]
fn getline_from_named_file() {
    let prog = Program {
        funcs: vec![vec![
            Instr::StoreConstStr(0, s("data")),
            Instr::NextLine(1, 0),
            Instr::ReadErr(0, 0),
            Instr::IntToStr(2, 0),
            Instr::Concat(1, 1, 2),
            Instr::PrintStdout(1),
            Instr::NextLine(3, 0),
            Instr::NextLine(3, 0),
            Instr::ReadErr(4, 0),
            Instr::IntToStr(5, 4),
            Instr::PrintStdout(5),
            Instr::Halt,
        ]],
        main: 0,
    };
    let mut host = TestHost::new("").with_file("data", "hello\nworld\n");
    assert_eq!(run_prog(&prog, &mut host, vec![]), Ok(RunOutcome::Done));
    assert_eq!(host.stdout_text(), "hello10");
}

#[test]
fn missing_named_file_reports_error_without_abort() {
    let prog = Program {
        funcs: vec![vec![
            Instr::StoreConstStr(0, s("absent")),
            Instr::NextLine(1, 0),
            Instr::ReadErr(2, 0),
            Instr::IntToStr(3, 2),
            Instr::PrintStdout(3),
            Instr::Halt,
        ]],
        main: 0,
    };
    let mut host = TestHost::new("");
    assert_eq!(run_prog(&prog, &mut host, vec![]), Ok(RunOutcome::Done));
    assert_eq!(host.stdout_text(), "-1");
}

#[test]
fn sprintf_integer_and_string_directives() {
    let prog = Program {
        funcs: vec![vec![
            Instr::StoreConstStr(0, s("%d|%05d|%-4d|%x|%X|%o|%s|%c|%%|%.2s")),
            Instr::StoreConstInt(0, 42),
            Instr::StoreConstInt(1, -7),
            Instr::StoreConstInt(2, 5),
            Instr::StoreConstInt(3, 255),
            Instr::StoreConstInt(4, 8),
            Instr::StoreConstStr(1, s("hi")),
            Instr::StoreConstInt(5, 65),
            Instr::StoreConstStr(2, s("abcd")),
            Instr::Sprintf {
                dst: 3,
                fmt: 0,
                args: vec![
                    (ScalarKind::Int, 0),
                    (ScalarKind::Int, 1),
                    (ScalarKind::Int, 2),
                    (ScalarKind::Int, 3),
                    (ScalarKind::Int, 3),
                    (ScalarKind::Int, 4),
                    (ScalarKind::Str, 1),
                    (ScalarKind::Int, 5),
                    (ScalarKind::Str, 2),
                ],
            },
            Instr::PrintStdout(3),
            Instr::Halt,
        ]],
        main: 0,
    };
    let mut host = TestHost::new("");
    assert_eq!(run_prog(&prog, &mut host, vec![]), Ok(RunOutcome::Done));
    assert_eq!(host.stdout_text(), "42|-0007|5   |ff|FF|10|hi|A|%|ab");
}

#[test]
fn printf_float_directive_through_host() {
    let prog = Program {
        funcs: vec![vec![
            Instr::StoreConstStr(0, s("[%08.2f]")),
            Instr::StoreConstFloat(0, FloatVal { bits: 3.14159f64.to_bits() }),
            Instr::Printf { output: None, fmt: 0, args: vec![(ScalarKind::Float, 0)] },
            Instr::Halt,
        ]],
        main: 0,
    };
    let mut host = TestHost::new("");
    assert_eq!(run_prog(&prog, &mut host, vec![]), Ok(RunOutcome::Done));
    assert_eq!(host.stdout_text(), "[00003.14]");
}

#[test]
fn float_arithmetic_and_text() {
    let prog = Program {
        funcs: vec![vec![
            Instr::StoreConstFloat(0, FloatVal { bits: 1.5f64.to_bits() }),
            Instr::StoreConstFloat(1, FloatVal { bits: 2.25f64.to_bits() }),
            Instr::AddFloat(2, 0, 1),
            Instr::FloatToStr(0, 2),
            Instr::PrintStdout(0),
            Instr::Halt,
        ]],
        main: 0,
    };
    let mut host = TestHost::new("");
    assert_eq!(run_prog(&prog, &mut host, vec![]), Ok(RunOutcome::Done));
    assert_eq!(host.stdout_text(), "3.75");
}

#[test]
fn str_to_float_prefix_and_truncation() {
    let prog = Program {
        funcs: vec![vec![
            Instr::StoreConstStr(0, s("-2.7rest")),
            Instr::StrToFloat(0, 0),
            Instr::FloatToInt(0, 0),
            Instr::IntToStr(1, 0),
            Instr::PrintStdout(1),
            Instr::Halt,
        ]],
        main: 0,
    };
    let mut host = TestHost::new("");
    assert_eq!(run_prog(&prog, &mut host, vec![]), Ok(RunOutcome::Done));
    assert_eq!(host.stdout_text(), "-2");
}

#[test]
fn map_iteration_snapshot_in_vm() {
    let prog = Program {
        funcs: vec![vec![
            Instr::StoreConstInt(0, 10),
            Instr::StoreConstInt(1, 20),
            Instr::StoreMap(MapKind::IntInt, 0, 0, 0),
            Instr::StoreMap(MapKind::IntInt, 0, 1, 1),
            Instr::IterBegin(MapKind::IntInt, 0, 0),
            Instr::Delete(MapKind::IntInt, 0, 0),
            Instr::IterHasNextInt(2, 0),
            Instr::JmpIf(2, 9),
            Instr::Jmp(15),
            Instr::IterGetNextInt(3, 0),
            Instr::IntToStr(0, 3),
            Instr::StoreConstStr(1, s(",")),
            Instr::Concat(0, 0, 1),
            Instr::PrintStdout(0),
            Instr::Jmp(6),
            Instr::Halt,
        ]],
        main: 0,
    };
    let mut host = TestHost::new("");
    assert_eq!(run_prog(&prog, &mut host, vec![]), Ok(RunOutcome::Done));
    assert_eq!(host.stdout_text(), "10,20,");
}

#[test]
fn call_and_ret_pass_parameters() {
    let prog = Program {
        funcs: vec![
            vec![
                Instr::StoreConstInt(0, 20),
                Instr::Push(frawk::bytecode::OpType::Int, 0),
                Instr::Call(1),
                Instr::Pop(frawk::bytecode::OpType::Int, 1),
                Instr::IntToStr(0, 1),
                Instr::PrintStdout(0),
                Instr::Halt,
            ],
            vec![
                Instr::Pop(frawk::bytecode::OpType::Int, 2),
                Instr::StoreConstInt(3, 3),
                Instr::AddInt(2, 2, 3),
                Instr::Push(frawk::bytecode::OpType::Int, 2),
                Instr::Ret,
            ],
        ],
        main: 0,
    };
    let mut host = TestHost::new("");
    assert_eq!(run_prog(&prog, &mut host, vec![]), Ok(RunOutcome::Done));
    assert_eq!(host.stdout_text(), "23");
}

#[test]
fn slot_instructions_are_unimplemented() {
    let prog = Program {
        funcs: vec![vec![
            Instr::LoadSlot(frawk::bytecode::OpType::Int, 0, 0),
            Instr::Halt,
        ]],
        main: 0,
    };
    let mut host = TestHost::new("");
    assert_eq!(run_prog(&prog, &mut host, vec![]), Err(VmError::UnimplementedSlot));
}

#[test]
fn check_program_rejects_bad_programs() {
    let c = counts();
    let no_terminal = Program {
        funcs: vec![vec![Instr::StoreConstInt(0, 1)]],
        main: 0,
    };
    assert!(!check_program(&no_terminal, &c));
    let bad_reg = Program {
        funcs: vec![vec![Instr::StoreConstInt(99, 1), Instr::Halt]],
        main: 0,
    };
    assert!(!check_program(&bad_reg, &c));
    let bad_label = Program {
        funcs: vec![vec![Instr::Jmp(9), Instr::Halt]],
        main: 0,
    };
    assert!(!check_program(&bad_label, &c));
    let empty = Program { funcs: vec![], main: 0 };
    assert!(!check_program(&empty, &c));
}

#[test]
fn out_of_fuel_reports_out_of_fuel() {
    let prog = Program {
        funcs: vec![vec![Instr::Jmp(0), Instr::Halt]],
        main: 0,
    };
    let c = counts();
    assert!(check_program(&prog, &c));
    let mut vm = Interp::new(c, Vec::new());
    let mut host = TestHost::new("");
    assert_eq!(vm.run(&prog, &mut host, 100), Ok(RunOutcome::OutOfFuel));
}

#[test]
fn render_with_is_exact_for_plain_arguments() {
    let fmt = s("%+d %x");
    let args = vec![FmtArg::I(7), FmtArg::I(31)];
    let out = frawk::printf::render_with(&fmt, &args);
    assert_eq!(String::from_utf8(out.bytes().clone()).unwrap(), "+7 1f");
}

#[test]
fn float_text_round_trip_through_vm() {
    let prog = Program {
        funcs: vec![vec![
            Instr::StoreConstFloat(0, FloatVal { bits: 0.1f64.to_bits() }),
            Instr::FloatToStr(0, 0),
            Instr::StrToFloat(1, 0),
            Instr::CmpFloat(CmpOp::Eq, 0, 0, 1),
            Instr::IntToStr(1, 0),
            Instr::PrintStdout(1),
            Instr::Halt,
        ]],
        main: 0,
    };
    let mut host = TestHost::new("");
    assert_eq!(run_prog(&prog, &mut host, vec![]), Ok(RunOutcome::Done));
    assert_eq!(host.stdout_text(), "1");
}

#[test]
fn storage_bank_operations() {
    let mut bank: frawk::interp::Storage<i64> = frawk::interp::default_of(3);
    assert_eq!(*frawk::interp::index(&bank, 0), 0);
    *frawk::interp::index_mut(&mut bank, 1) = 5;
    assert_eq!(*frawk::interp::index(&bank, 1), 5);
    frawk::interp::push(&mut bank, 1);
    frawk::interp::push(&mut bank, 0);
    assert_eq!(frawk::interp::pop(&mut bank), 0);
    assert_eq!(frawk::interp::pop(&mut bank), 5);
    bank.reset();
    assert_eq!(*frawk::interp::index(&bank, 1), 0);
    assert!(bank.stack.is_empty());
}

#[test]
fn reset_gives_a_fresh_machine() {
    let prog = Program {
        funcs: vec![vec![
            Instr::LoadVarInt(0, Variable::NR),
            Instr::StoreConstInt(1, 1),
            Instr::AddInt(0, 0, 1),
            Instr::StoreVarInt(Variable::NR, 0),
            Instr::IntToStr(0, 0),
            Instr::PrintStdout(0),
            Instr::Halt,
        ]],
        main: 0,
    };
    let c = counts();
    assert!(check_program(&prog, &c));
    let mut vm = Interp::new(c, Vec::new());
    let mut host = TestHost::new("");
    assert_eq!(vm.run(&prog, &mut host, 1000), Ok(RunOutcome::Done));
    assert_eq!(vm.run(&prog, &mut host, 1000), Ok(RunOutcome::Done));
    vm.reset();
    assert_eq!(vm.run(&prog, &mut host, 1000), Ok(RunOutcome::Done));
    assert_eq!(host.stdout_text(), "121");
}
