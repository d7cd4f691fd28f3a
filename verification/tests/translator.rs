use hack_backend::assemble;
use hack_backend::codegen::{entry, generate};
use hack_backend::error::VmError;
use hack_backend::opcode::Opcode;
use hack_backend::parser::{parse, parse_complex};
use hack_backend::translate;

#[test]
fn parse_recognizes_every_opcode_shape() {
    let src = "push constant 7\npop local 2\nadd\nsub\nneg\neq\ngt\nlt\nand\nor\nnot\n\
               label L\ngoto L\nif-goto L\nfunction F 2\ncall F 1\nreturn";
    let ops = parse(src).unwrap();
    assert_eq!(ops.len(), 17);
    assert!(matches!(&ops[0], Opcode::Push(m) if m.segment == "constant" && m.i == 7));
    assert!(matches!(&ops[1], Opcode::Pop(m) if m.segment == "local" && m.i == 2));
    assert!(matches!(ops[2], Opcode::Add));
    assert!(matches!(ops[7], Opcode::Lt));
    assert!(matches!(&ops[11], Opcode::Label(m) if m.name == "L"));
    assert!(matches!(&ops[12], Opcode::Goto(m) if m.name == "L"));
    assert!(matches!(&ops[13], Opcode::IfGoto(m) if m.name == "L"));
    assert!(matches!(&ops[14], Opcode::Function(m) if m.name == "F" && m.argv == 2));
    assert!(matches!(&ops[15], Opcode::Call(m) if m.name == "F" && m.argv == 1));
    assert!(matches!(ops[16], Opcode::Return));
}

#[test]
fn parse_complex_rejects_unknown_shapes() {
    assert_eq!(
        parse_complex("fly high 3"),
        Err(VmError::UnknownExpression(String::from("fly high 3")))
    );
}

#[test]
fn parse_rejects_a_bad_line_anywhere() {
    assert_eq!(
        parse("add\nblah\nsub"),
        Err(VmError::UnknownExpression(String::from("blah")))
    );
}

#[test]
fn numeric_parse_failure_yields_zero() {
    let ops = parse("push constant xyz").unwrap();
    assert!(matches!(&ops[0], Opcode::Push(m) if m.i == 0));
}

#[test]
fn unknown_segment_is_fatal_for_the_unit() {
    assert_eq!(
        translate("Main.vm", "push wrong 3"),
        Err(VmError::UnknownSegment(String::from("wrong")))
    );
}

#[test]
fn popping_constant_is_fatal() {
    assert_eq!(
        translate("Main.vm", "pop constant 3"),
        Err(VmError::UnknownSegment(String::from("constant")))
    );
}

#[test]
fn static_segment_mangles_with_the_unit_name() {
    let out = translate("dir/Foo.vm", "push static 3\npop static 4").unwrap();
    assert!(out.contains("@Foo.3\n"));
    assert!(out.contains("@Foo.4\n"));
    let other = translate("Bar.vm", "push static 3").unwrap();
    assert!(other.contains("@Bar.3\n"));
}

#[test]
fn temp_and_pointer_segments_use_fixed_registers() {
    let out = translate("T.vm", "push temp 3\npop pointer 0\npop pointer 1").unwrap();
    assert!(out.contains("@8\n"));
    assert!(out.contains("@THIS\nM=D\n"));
    assert!(out.contains("@THAT\nM=D\n"));
}

#[test]
fn labels_mangle_with_the_function_context() {
    let out = translate("U.vm", "function Main.f 0\nlabel TOP\ngoto TOP\nif-goto TOP").unwrap();
    assert!(out.contains("(Main.f)\n"));
    assert!(out.contains("(Main.f$TOP)\n"));
    assert!(out.contains("@Main.f$TOP\n1;JMP\n"));
    assert!(out.contains("@Main.f$TOP\nD;JNE\n"));
}

#[test]
fn label_safety_on_emitted_label_lines() {
    // Every label line defined inside a function context carries a `$`;
    // the only one without is the function's own entry label. Return
    // landing labels carry the `$ret.` marker.
    let out = translate(
        "V.vm",
        "function Main.f 0\nlabel TOP\npush constant 1\npush constant 2\neq\ncall Main.g 0\nreturn\nfunction Main.g 0\nreturn",
    )
    .unwrap();
    let mut saw_ret_label = false;
    for line in out.lines() {
        if line.starts_with('(') {
            let inner = line.trim_start_matches('(').trim_end_matches(')');
            if inner.contains("$ret.") {
                saw_ret_label = true;
            }
            if inner == "Main.f" || inner == "Main.g" {
                assert!(!inner.contains('$'));
            } else {
                assert!(inner.contains('$'), "unmangled label line: {}", line);
            }
        }
    }
    assert!(saw_ret_label);
}

#[test]
fn comparison_labels_count_up_per_unit() {
    let out = translate("W.vm", "eq\nlt").unwrap();
    assert!(out.contains("@Global$TRUE_0\n"));
    assert!(out.contains("(Global$FINISH_0)\n"));
    assert!(out.contains("@Global$TRUE_1\n"));
    assert!(out.contains("(Global$FINISH_1)\n"));
}

#[test]
fn translation_is_deterministic() {
    let src = "function Main.f 1\npush constant 3\ncall Main.f 0\nreturn";
    assert_eq!(translate("A.vm", src), translate("A.vm", src));
}

#[test]
fn bootstrap_prologue_points_the_stack_at_256() {
    let e = entry();
    assert!(e.starts_with("@256\nD=A\n@SP\nM=D\n"));
    assert!(e.contains("@Sys.init\n1;JMP\n"));
    assert!(e.contains("(Global$ret.0)\n"));
}

#[test]
fn generate_keeps_opcode_order() {
    let ops = parse("push constant 1\npush constant 2\nadd").unwrap();
    let out = generate(&ops, String::from("G")).unwrap();
    let one = out.find("@1\n").unwrap();
    let two = out.find("@2\n").unwrap();
    let plus = out.find("M=D+M\n").unwrap();
    assert!(one < two && two < plus);
}

#[test]
fn translated_output_assembles_to_sixteen_bit_words() {
    // Encoding width and ROM counting, checked on a unit that exercises
    // every kind of opcode.
    let src = "function Main.f 2\npush constant 7\npush argument 0\nadd\npop local 1\n\
               push local 1\npush this 0\npush that 1\nsub\nand\nor\nnot\nneg\n\
               label X\npush temp 2\npop temp 3\nif-goto X\npush pointer 0\npop pointer 1\n\
               push static 0\npop static 1\ngt\ncall Main.f 1\nreturn";
    let assembly = translate("Main.vm", src).unwrap();
    let bin = assemble(&assembly).unwrap();
    let mut rom_lines = 0;
    for line in assembly.lines() {
        let clean = match line.find('/') {
            Some(p) => line[..p].trim(),
            None => line.trim(),
        };
        if !clean.is_empty() && !clean.starts_with('(') {
            rom_lines += 1;
        }
    }
    let out_lines: Vec<&str> = bin.lines().filter(|l| !l.is_empty()).collect();
    assert_eq!(out_lines.len(), rom_lines);
    for line in &out_lines {
        assert_eq!(line.len(), 16);
        assert!(line.chars().all(|c| c == '0' || c == '1'));
    }
}
