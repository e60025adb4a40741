use wgsl_plus::{WgslError, WgslLiteral, WgslOperator, WgslSegment, WgslShader, WgslWorkspace, WgslWorkspaceState};

fn float_parse(t: String) -> u64 {
    t.parse::<f64>().unwrap().to_bits()
}

fn float_arith(op: WgslOperator, a: u64, b: u64) -> u64 {
    let (x, y) = (f64::from_bits(a), f64::from_bits(b));
    let r = match op {
        WgslOperator::Add => x + y,
        WgslOperator::Subtract => x - y,
        WgslOperator::Multiply => x * y,
        WgslOperator::Divide => x / y,
        _ => f64::NAN,
    };
    r.to_bits()
}

fn float_show(b: u64) -> String {
    format!("{}", f64::from_bits(b))
}

fn render(source: &str, st: &WgslWorkspaceState) -> Result<String, WgslError> {
    let sh = WgslShader::new(source, &float_parse)?;
    let none: Vec<(String, WgslShader)> = Vec::new();
    sh.evaluate(st, &none, 1, &float_arith, &float_show).unwrap()
}

fn with(pairs: &[(&str, WgslLiteral)]) -> WgslWorkspaceState {
    let mut st = WgslWorkspaceState::empty();
    for (k, v) in pairs {
        st.set_global(k.to_string(), *v);
    }
    st
}

#[test]
fn literal_text_round_trip() {
    let src = "fn main() {\n    return;\n}\n";
    let out = render(src, &WgslWorkspaceState::empty()).unwrap();
    assert_eq!(out, "fn main() {\nreturn;\n}\n");
    let plain = "a\nb\nc\n";
    assert_eq!(render(plain, &WgslWorkspaceState::empty()).unwrap(), plain);
}

#[test]
fn blank_lines_dropped() {
    assert_eq!(render("a\n\n   \nb\r\n", &WgslWorkspaceState::empty()).unwrap(), "a\nb\n");
}

#[test]
fn conditional_scenario() {
    let src = "//:if USE_TANGENTS\nA\n//:else\nB\n//:end\n";
    let off = with(&[("USE_TANGENTS", WgslLiteral::Bool(false))]);
    let on = with(&[("USE_TANGENTS", WgslLiteral::Bool(true))]);
    assert_eq!(render(src, &off).unwrap(), "B\n");
    assert_eq!(render(src, &on).unwrap(), "A\n");
}

#[test]
fn conditional_without_else() {
    let src = "x\n//:if N\nA\n//:end\ny\n";
    assert_eq!(render(src, &with(&[("N", WgslLiteral::Integer(0))])).unwrap(), "x\ny\n");
    assert_eq!(render(src, &with(&[("N", WgslLiteral::Integer(2))])).unwrap(), "x\nA\ny\n");
    assert_eq!(render(src, &with(&[("N", WgslLiteral::Float(0.5f64.to_bits()))])).unwrap(), "x\nA\ny\n");
    assert_eq!(render(src, &with(&[("N", WgslLiteral::Float((-0.0f64).to_bits()))])).unwrap(), "x\ny\n");
}

#[test]
fn nested_conditionals() {
    let src = "//:if A\n//:if B\nab\n//:else\na\n//:end\n//:else\nnone\n//:end\n";
    let st = with(&[("A", WgslLiteral::Bool(true)), ("B", WgslLiteral::Bool(false))]);
    assert_eq!(render(src, &st).unwrap(), "a\n");
}

#[test]
fn constant_scenario() {
    let st = with(&[("FOO", WgslLiteral::Integer(7))]);
    assert_eq!(render("//:const FOO\n", &st).unwrap(), "const FOO = 7;\n");
    let neg = with(&[("FOO", WgslLiteral::Integer(-5))]);
    assert_eq!(render("//:const FOO\n", &neg).unwrap(), "const FOO = -5;\n");
    let b = with(&[("FOO", WgslLiteral::Bool(true))]);
    assert_eq!(render("//:const FOO\n", &b).unwrap(), "const FOO = true;\n");
    let f = with(&[("FOO", WgslLiteral::Float(1.5f64.to_bits()))]);
    assert_eq!(render("//:const FOO\n", &f).unwrap(), "const FOO = 1.5;\n");
}

#[test]
fn undefined_constant() {
    assert!(matches!(render("//:const NOPE\n", &WgslWorkspaceState::empty()), Err(WgslError::UndefinedVariable)));
    assert!(matches!(render("//:if NOPE\nA\n//:end\n", &WgslWorkspaceState::empty()), Err(WgslError::UndefinedVariable)));
}

#[test]
fn directive_errors() {
    match WgslShader::new("//:frobnicate x\n", &float_parse) {
        Err(WgslError::UnknownOperation(op)) => assert_eq!(op, "frobnicate"),
        _ => panic!("expected UnknownOperation"),
    }
    assert!(matches!(
        WgslShader::new("//:if A\nx\n//:else\ny\n//:else\nz\n//:end\n", &float_parse),
        Err(WgslError::InvalidIfBlock)
    ));
    match WgslShader::new("a\n//:end\nb\nc\n", &float_parse) {
        Err(WgslError::LeftoverChars(t)) => assert_eq!(t, "bc"),
        _ => panic!("expected LeftoverChars"),
    }
    assert!(matches!(WgslShader::new("//:if (1\nx\n//:end\n", &float_parse), Err(WgslError::NoClosingParenthesis)));
}

#[test]
fn from_lines_stops_at_else() {
    let lines: Vec<String> = vec!["x".to_string(), "//:else".to_string(), "y".to_string()];
    let mut pos = 0usize;
    let (seg, reason) = WgslSegment::from_lines(&lines, &mut pos, &float_parse).unwrap();
    assert_eq!(pos, 2);
    assert_eq!(reason, wgsl_plus::WgslSegmentEndReason::ElseOp);
    match seg.unwrap() {
        WgslSegment::Text(t) => assert_eq!(t, "x\n"),
        other => panic!("{:?}", other),
    }
}

fn out_of(seg: &WgslSegment) -> String {
    let mut out = String::new();
    let none: Vec<(String, WgslShader)> = Vec::new();
    let st = with(&[("K", WgslLiteral::Integer(1))]);
    seg.write(&mut out, &st, &none, 1, &float_arith, &float_show).unwrap();
    out
}

#[test]
fn concat_grouping_same_output() {
    let parts = || {
        vec![
            WgslSegment::Text("a".to_string()),
            WgslSegment::Constant("K".to_string()),
            WgslSegment::Text("b".to_string()),
            WgslSegment::Sequence(vec![WgslSegment::Text("c".to_string()), WgslSegment::Constant("K".to_string())]),
        ]
    };
    let mut left = WgslSegment::Text(String::new());
    for p in parts() {
        left.concat(p);
    }
    let mut it = parts().into_iter();
    let first = it.next().unwrap();
    let mut rest = it.next().unwrap();
    for p in it {
        rest.concat(p);
    }
    let mut right = first;
    right.concat(rest);
    assert_eq!(out_of(&left), "aconst K = 1;\nbcconst K = 1;\n");
    assert_eq!(out_of(&left), out_of(&right));
}

#[test]
fn concat_merges_text() {
    let mut s = WgslSegment::Text("ab".to_string());
    s.concat(WgslSegment::Text("cd".to_string()));
    match &s {
        WgslSegment::Text(t) => assert_eq!(t, "abcd"),
        other => panic!("{:?}", other),
    }
    s.concat(WgslSegment::Include("x".to_string()));
    s.concat(WgslSegment::Text("e".to_string()));
    s.concat(WgslSegment::Text("f".to_string()));
    match &s {
        WgslSegment::Sequence(v) => {
            assert_eq!(v.len(), 3);
            assert!(matches!(&v[2], WgslSegment::Text(t) if t == "ef"));
        },
        other => panic!("{:?}", other),
    }
    assert!(s.can_concat_fast(&WgslSegment::Constant("k".to_string())));
    assert!(!WgslSegment::Constant("k".to_string()).can_concat_fast(&WgslSegment::Include("i".to_string())));
}

#[test]
fn workspace_includes() {
    let mut ws = WgslWorkspace::from_memory(
        "shaders",
        &[
            ("my-shader.wgsl", "//:include vertex.wgsl\n//:if USE_TANGENTS\ntangent\n//:end\nbody\n"),
            ("vertex.wgsl", "vertex\n//:const BIT_2\n"),
        ],
        &float_parse,
    )
    .unwrap();
    ws.set_global_bool("USE_TANGENTS", false);
    assert_eq!(ws.get_shader("my-shader.wgsl", &float_arith, &float_show).unwrap(), "vertex\nconst BIT_2 = 4;\n\nbody\n");
    ws.set_global_bool("USE_TANGENTS", true);
    assert_eq!(
        ws.get_shader("my-shader.wgsl", &float_arith, &float_show).unwrap(),
        "vertex\nconst BIT_2 = 4;\n\ntangent\nbody\n"
    );
    ws.set_global_i64("USE_TANGENTS", 0);
    assert_eq!(ws.get_shader("vertex.wgsl", &float_arith, &float_show).unwrap(), "vertex\nconst BIT_2 = 4;\n");
    assert!(matches!(ws.get_shader("nope.wgsl", &float_arith, &float_show), Err(WgslError::NotFound)));
}

#[test]
fn workspace_include_cycle_faults() {
    let ws = WgslWorkspace::from_memory("r", &[("a", "//:include b\n"), ("b", "//:include a\n")], &float_parse).unwrap();
    assert!(ws.try_get_shader("a", &float_arith, &float_show).is_none());
}

#[test]
fn workspace_missing_include() {
    let ws = WgslWorkspace::from_memory("r", &[("a", "x\n//:include b\n")], &float_parse).unwrap();
    assert!(matches!(ws.get_shader("a", &float_arith, &float_show), Err(WgslError::NotFound)));
    assert!(matches!(
        WgslWorkspace::from_memory("r", &[("a", "x\n"), ("b", "//:bad\n")], &float_parse),
        Err(WgslError::UnknownOperation(_))
    ));
}

#[test]
fn if_without_body_at_end() {
    let lines: Vec<String> = vec!["//:if X".to_string()];
    let mut pos = 0usize;
    assert!(matches!(WgslSegment::from_lines(&lines, &mut pos, &float_parse), Err(WgslError::InvalidIfBlock)));
    assert!(matches!(WgslShader::new("a\n//:if X\n", &float_parse), Err(WgslError::InvalidIfBlock)));
    assert!(WgslShader::new("//:if X\nA\n", &float_parse).is_ok());
    assert!(WgslShader::new("//:if X\n//:end\n", &float_parse).is_ok());
}

#[test]
fn write_keeps_text_before_an_error() {
    let sh = WgslShader::new("a\n//:const K\n//:const MISSING\nb\n", &float_parse).unwrap();
    let none: Vec<(String, WgslShader)> = Vec::new();
    let st = with(&[("K", WgslLiteral::Integer(2))]);
    let mut out = String::from(">");
    let r = sh.segment().write(&mut out, &st, &none, 1, &float_arith, &float_show);
    assert!(matches!(r, Err(WgslError::UndefinedVariable)));
    assert_eq!(out, ">a\nconst K = 2;\n");
}

#[test]
fn text_lines_make_one_text() {
    let lines: Vec<String> = vec![" x ".to_string(), "y".to_string(), "//:end".to_string(), "z".to_string()];
    let mut pos = 0usize;
    let (seg, reason) = WgslSegment::from_lines(&lines, &mut pos, &float_parse).unwrap();
    assert_eq!(reason, wgsl_plus::WgslSegmentEndReason::EndOp);
    assert_eq!(pos, 3);
    assert!(matches!(seg.unwrap(), WgslSegment::Text(t) if t == "x\ny\n"));
}

#[test]
fn workspace_starts_with_default_variables() {
    let ws = WgslWorkspace::from_memory("r", &[("s", "//:const BIT_4\n")], &float_parse).unwrap();
    assert_eq!(ws.state().get("BIT_4"), Some(WgslLiteral::Integer(16)));
    assert_eq!(ws.state().get("OTHER"), None);
    assert_eq!(ws.get_shader("s", &float_arith, &float_show).unwrap(), "const BIT_4 = 16;\n");
}
