use pl0rs::lexer::lex;
use pl0rs::parser::parse;
use pl0rs::State;

#[test]
// Generates names like 0001, and passes them to parse_file() to get either an Ok(()) or Err(..).
fn test_parse() {
    for i in 0..11 {
        println!("{:04}", i);
        assert_eq!(parse_file(format!("{:04}", i).as_str()).unwrap(), ())
    }
}

fn source(name: &str) -> Result<&'static str, String> {
    match name {
        "0000" => Ok("."),
        "0001" => Ok("var x;\nx := 1\n."),
        "0002" => Ok("const a = 1, b = 2;\nvar x, y, z;\nbegin\n  x := a;\n  y := b;\n  z := x + y\nend.\n"),
        "0003" => Ok("var n, f;\nbegin\n  n := 5;\n  f := 1;\n  while n > 0 do\n  begin\n    f := f * n;\n    n := n - 1\n  end\nend.\n"),
        "0004" => Ok("var x, squ;\n\nprocedure square;\nbegin\n   squ := x * x\nend;\n\nbegin\n   x := 1;\n   while x < 11 do\n   begin\n      call square;\n      x := x + 1\n   end\nend.\n"),
        "0005" => Ok("{ greatest common divisor }\nvar x, y;\nbegin\n  x := 84; y := 36;\n  while x # y do\n  begin\n    if x > y then x := x - y;\n    if y > x then y := y - x\n  end\nend.\n"),
        "0006" => Ok("CONST Max = 100;\nVAR Arg, Ret;\n\nPROCEDURE IsOdd;\nBEGIN\n  IF ODD Arg THEN Ret := 1;\n  IF Arg = 0 THEN Ret := 0\nEND;\n\nBEGIN\n  Arg := Max;\n  CALL IsOdd\nEND.\n"),
        "0007" => Ok("var a, b, c;\nbegin\n  a := -1 + 2 * (3 - 4) / 5;\n  b := +a * (a + (a - (a * a)));\n  c := ((a))\nend."),
        "0008" => Ok("procedure p; ; procedure q; begin end; begin call p; call q; end."),
        "0009" => Ok("const limit = 9223372036854775807;\nvar i;\nbegin\n  i := 0;\n  while i < limit do i := i + 1;\n  ;\n  ;\nend\n."),
        "0010" => Ok("var x{one},y{two};{three}\nprocedure\tp;var z;begin z:=x*y;if z#0 then call p end;begin x:=2;y:=3;call p end."),
        _ => Err(format!("Couldn't open file: {name}")),
    }
}

fn parse_file(name: &str) -> Result<(), String> {
    let file = source(name)?;
    let mut state = State::default();

    match lex(&mut state, file) {
        Ok(res) => match parse(res) {
            Ok(_) => Ok(()),
            Err(e) => Err(e.message()),
        },
        Err(e) => Err(e.message()),
    }
}
