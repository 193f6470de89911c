use wasm::instance::{instantiate, Externals, Store};
use wasm::repr::{BlockType, ExportDesc, FuncIdx, Inst, IntBinop, LoadOp, MemArg, ValType};
use wasm::rt::{Machine, Status, Val};
use wasm::text::parser::{str_eq, ParseContext, ParseError, Parser};
use wasm::text::sexpr::{parse_module_to_sexpr, Sexpr};
use wasm::text::token::{parse_longest, Lexer, TextToken, Token, TokenizeError};
use wasm::text::{parse_module, tokenize_script, tokenize_script_without_ws, InputError};

#[test]
fn tokenize_string() {
    let tokens = tokenize_script("\"abc\"").unwrap();
    assert!(tokens.len() == 1);
    let token = &tokens[0];
    assert!(matches!(token, Token::Text(_)));
}

#[test]
fn string_escapes_are_resolved() {
    let tokens = tokenize_script(r#""a\n\t\\\'\"\41\u{e9}\u{20AC}\u{1F600}z""#).unwrap();
    let mut want = b"a\n\t\\'\"A".to_vec();
    want.extend("\u{e9}\u{20AC}\u{1F600}z".as_bytes());
    assert_eq!(tokens, vec![Token::Text(TextToken(want))]);
    assert_eq!(tokenize_script("\"abc"), Err(TokenizeError::UnexpectedEof));
    assert_eq!(tokenize_script(r#""\q""#), Err(TokenizeError::FailedExpectedToken));
    assert_eq!(tokenize_script(r#""\u{D800}""#), Err(TokenizeError::FailedExpectedToken));
    assert_eq!(tokenize_script(r#""\u[41]""#), Err(TokenizeError::UnexpectedNextChar(b'[')));
}

#[test]
fn tokens_of_every_kind() {
    let tokens = tokenize_script("(module $m = i32.add)").unwrap();
    assert_eq!(
        tokens,
        vec![
            Token::LeftParen,
            Token::Atom("module".to_string()),
            Token::Whitespace,
            Token::Name("m".to_string()),
            Token::Whitespace,
            Token::Equal,
            Token::Whitespace,
            Token::Atom("i32.add".to_string()),
            Token::RightParen,
        ]
    );
}

#[test]
fn numbers_are_read_in_the_longest_way() {
    let only = |text: &str| {
        let mut tokens = tokenize_script(text).unwrap();
        assert_eq!(tokens.len(), 1, "{text}");
        tokens.pop().unwrap()
    };
    assert_eq!(only("42"), Token::Nat(42));
    assert_eq!(only("1_000"), Token::Nat(1000));
    assert_eq!(only("0xFf"), Token::Nat(255));
    assert_eq!(only("0x1_0"), Token::Nat(16));
    assert_eq!(only("+7"), Token::Int(7));
    assert_eq!(only("-7"), Token::Int(-7));
    assert_eq!(only("-0x80"), Token::Int(-128));
    assert_eq!(only("18446744073709551615"), Token::Nat(u64::MAX));
    assert_eq!(tokenize_script("18446744073709551616"), Err(TokenizeError::NumberOutOfRange));
    assert_eq!(only("1.5"), Token::Float("1.5".to_string()));
    assert_eq!(only("-1.5e-3"), Token::Float("-1.5e-3".to_string()));
    assert_eq!(only("1e10"), Token::Float("1e10".to_string()));
    assert_eq!(only("0x1.8p3"), Token::Float("0x1.8p3".to_string()));
    assert_eq!(only("1."), Token::Float("1.".to_string()));
    assert_eq!(only("-inf"), Token::Float("-inf".to_string()));
    assert_eq!(only("+nan"), Token::Float("+nan".to_string()));
    assert_eq!(only("-nan:0x7f"), Token::Float("-nan:0x7f".to_string()));
    assert_eq!(tokenize_script("+x"), Err(TokenizeError::FailedExpectedToken));
    assert_eq!(tokenize_script("#"), Err(TokenizeError::FailedExpectedToken));
}

#[test]
fn comments_nest_and_are_left_out() {
    let text = "(a ;; to the end\n b (; one (; two ;) ;) c)";
    let all = tokenize_script(text).unwrap();
    assert!(all.contains(&Token::Comment(" to the end".to_string())));
    assert!(all.contains(&Token::Comment(" one (; two ;) ".to_string())));
    let kept = tokenize_script_without_ws(text).unwrap();
    assert_eq!(
        kept,
        vec![
            Token::LeftParen,
            Token::Atom("a".to_string()),
            Token::Atom("b".to_string()),
            Token::Atom("c".to_string()),
            Token::RightParen,
        ]
    );
    assert_eq!(tokenize_script("(; open"), Err(TokenizeError::UnexpectedEof));
    assert_eq!(tokenize_script("; x"), Err(TokenizeError::FailedExpectedToken));
}

#[test]
fn forms_are_nested_lists() {
    let form = parse_module_to_sexpr("(module (func $f 1) \"s\")").unwrap();
    assert_eq!(
        form,
        Sexpr::List(vec![
            Sexpr::Atom("module".to_string()),
            Sexpr::List(vec![
                Sexpr::Atom("func".to_string()),
                Sexpr::Name("f".to_string()),
                Sexpr::Nat(1),
            ]),
            Sexpr::Text(TextToken(b"s".to_vec())),
        ])
    );
    assert_eq!(
        parse_module_to_sexpr("(module"),
        Err(InputError::Parsing(ParseError::UnexpectedEot))
    );
    assert_eq!(
        parse_module_to_sexpr(")"),
        Err(InputError::Parsing(ParseError::FailedExpectedToken))
    );
}

const COUNTER: &str = r#"
(module
  (type (func (param i32 i32) (result i32)))
  (type (func (result i32)))
  (import "env" "add" (func $add (type 0)))
  (memory 1 2)
  (table 2 funcref)
  (global (mut i32) i32.const -1)
  (func $count (type 1) (local i32)
    loop
      local.get 0
      i32.const 1
      i32.add
      local.tee 0
      i32.const 10
      i32.lt_s
      br_if 0
    end
    local.get 0)
  (func (type 1)
    i32.const 16
    i32.const 0xDEADBEEF
    i32.store offset=4
    i32.const 16
    i32.load offset=4 align=4
    if (result i32)
      i32.const 7
    else
      i32.const 9
    end)
  (export "count" (func 1))
  (export "probe" (func 2))
  (start 1)
  (elem (offset i32.const 0) func 1 2)
  (data (offset i32.const 8) "ab" "\00c"))
"#;

#[test]
fn a_module_is_read_from_text() {
    let module = parse_module(COUNTER).unwrap();
    assert_eq!(module.types.len(), 2);
    assert_eq!(module.types[0].from.types, vec![ValType::I32, ValType::I32]);
    assert_eq!(module.imports.len(), 1);
    assert_eq!(module.imports[0].module, "env");
    assert_eq!(module.mems[0].limits.max, Some(2));
    assert_eq!(module.tables[0].limits.min, 2);
    assert!(module.globals[0].typ.mutable);
    assert!(matches!(module.globals[0].init.as_slice(), [Inst::I32Const(-1)]));
    assert_eq!(module.funcs.len(), 2);
    assert_eq!(module.funcs[0].locals.len(), 1);
    assert!(matches!(
        module.funcs[0].body.as_slice(),
        [Inst::Loop(BlockType::Empty, _), Inst::LocalGet(_)]
    ));
    let Inst::Loop(_, body) = &module.funcs[0].body[0] else { panic!("a loop") };
    assert_eq!(body.instructions.len(), 7);
    assert!(matches!(body.instructions[2], Inst::I32Binary(IntBinop::Add)));
    assert!(matches!(
        module.funcs[1].body[4],
        Inst::Load(LoadOp::I32Load, MemArg { align: 2, offset: 4 })
    ));
    assert!(matches!(module.funcs[1].body[1], Inst::I32Const(v) if v == 0xDEADBEEFu32 as i32));
    assert!(matches!(&module.funcs[1].body[5], Inst::IfElse(BlockType::Inline(ValType::I32), a, b)
        if a.instructions.len() == 1 && b.instructions.len() == 1));
    assert_eq!(module.exports[1].desc, ExportDesc::Func(FuncIdx(2)));
    assert_eq!(module.start, Some(FuncIdx(1)));
    assert_eq!(module.elems[0].init, vec![FuncIdx(1), FuncIdx(2)]);
    assert_eq!(module.datas[0].init, b"ab\0c".to_vec());
}

#[test]
fn a_module_from_text_runs() {
    let text = r#"
    (module
      (type (func (result i32)))
      (memory 1)
      (func (type 0) (local i32)
        loop
          local.get 0  i32.const 1  i32.add  local.tee 0
          i32.const 10  i32.lt_s  br_if 0
        end
        local.get 0)
      (func (type 0)
        i32.const 16  i32.const 0xDEADBEEF  i32.store offset=4
        i32.const 20  i32.load
        if (result i32) i32.const 7 else i32.const 9 end)
      (export "count" (func 0))
      (export "probe" (func 1)))
    "#;
    let module = parse_module(text).unwrap();
    let mut store = Store::new();
    let (instance, _) = instantiate(module, &mut store, &Externals::new(), &mut Machine::new(16), 100).unwrap();
    let count = store.modules[instance].export_func(&"count".to_string()).unwrap();
    let probe = store.modules[instance].export_func(&"probe".to_string()).unwrap();
    let mut machine = Machine::new(16);
    assert_eq!(machine.invoke(&mut store, count, &vec![], 10_000), Status::Done);
    assert_eq!(machine.stack.items, vec![Val::I32(10)]);
    let mut machine = Machine::new(16);
    assert_eq!(machine.invoke(&mut store, probe, &vec![], 10_000), Status::Done);
    assert_eq!(machine.stack.items, vec![Val::I32(7)]);
}

#[test]
fn errors_of_the_text_format() {
    let parse = |text: &str| parse_module(text).map(|_| ());
    assert_eq!(parse("module"), Err(InputError::Parsing(ParseError::ExpectedLparen)));
    assert_eq!(parse("(modul)"), Err(InputError::Parsing(ParseError::FailedExpectedToken)));
    assert_eq!(parse("(module"), Err(InputError::Parsing(ParseError::UnexpectedEot)));
    assert_eq!(parse("(module (wrong))"), Err(InputError::Parsing(ParseError::InvalidModulefield("wrong".to_string()))));
    assert_eq!(
        parse("(module (import \"a\" \"b\" (tag)))"),
        Err(InputError::Parsing(ParseError::UnexpectedImport))
    );
    assert_eq!(
        parse("(module (import \"\\ff\" \"b\" (func (type 0))))"),
        Err(InputError::Parsing(ParseError::InvalidUtf8))
    );
    assert_eq!(
        parse("(module (func (type 0) i32.frob))"),
        Err(InputError::Parsing(ParseError::UnknownInstruction))
    );
    assert_eq!(
        parse("(module (func (type 0) i32.const 4294967296))"),
        Err(InputError::Parsing(ParseError::NumberOutOfRange))
    );
    assert_eq!(
        parse("(module (func (type 0) f64.const 1.5))"),
        Err(InputError::Parsing(ParseError::UnsupportedFloat))
    );
    assert_eq!(
        parse("(module (func (type 0) nop (nop)))"),
        Err(InputError::Parsing(ParseError::Context(
            ParseContext::Func,
            Box::new(ParseError::ExpectedRparen)
        )))
    );
    assert_eq!(
        parse("(module (type (func (param i32 x))))"),
        Err(InputError::Parsing(ParseError::Context(
            ParseContext::Type,
            Box::new(ParseError::Context(
                ParseContext::FuncType,
                Box::new(ParseError::Context(
                    ParseContext::Params,
                    Box::new(ParseError::ExpectedRparen)
                ))
            ))
        )))
    );
    assert_eq!(parse("(module \"x"), Err(InputError::Tokenizing(TokenizeError::UnexpectedEof)));
}

#[test]
fn infinities_are_read_as_bits() {
    let module = parse_module(
        "(module (func (type 0) f64.const -inf f32.const nan f64.const inf f32.const 0))",
    )
    .unwrap();
    assert!(matches!(
        module.funcs[0].body.as_slice(),
        [
            Inst::F64Const(0xFFF0_0000_0000_0000),
            Inst::F32Const(0x7FC0_0000),
            Inst::F64Const(0x7FF0_0000_0000_0000),
            Inst::F32Const(0)
        ]
    ));
}

#[test]
fn an_unknown_field_is_refused_with_its_word() {
    let atom = |s: &str| Token::Atom(s.to_string());
    let tokens = vec![Token::LeftParen, atom("module"), Token::LeftParen, atom("bogus"), Token::RightParen, Token::RightParen];
    let mut parser = Parser::new(&tokens);
    assert_eq!(parser.module().unwrap_err(), ParseError::InvalidModulefield("bogus".to_string()));

    let tokens = vec![Token::LeftParen, atom("module"), Token::RightParen];
    let mut parser = Parser::new(&tokens);
    let module = parser.module().unwrap();
    assert_eq!(parser.pos, 3);
    assert!(module.types.is_empty() && module.funcs.is_empty() && module.tables.is_empty());
    assert!(module.mems.is_empty() && module.globals.is_empty() && module.elems.is_empty());
    assert!(module.datas.is_empty() && module.imports.is_empty() && module.exports.is_empty());
    assert_eq!(module.start, None);
}

#[test]
fn numbers_that_do_not_fit_are_refused() {
    assert_eq!(tokenize_script("18446744073709551615"), Ok(vec![Token::Nat(u64::MAX)]));
    assert_eq!(tokenize_script("18446744073709551616"), Err(TokenizeError::NumberOutOfRange));
    assert_eq!(tokenize_script("18446744073709551617"), Err(TokenizeError::NumberOutOfRange));
    assert_eq!(tokenize_script("0xFFFF_FFFF_FFFF_FFFF"), Ok(vec![Token::Nat(u64::MAX)]));
    assert_eq!(tokenize_script("0x1_0000_0000_0000_0000"), Err(TokenizeError::NumberOutOfRange));
    assert_eq!(tokenize_script("-9223372036854775808"), Ok(vec![Token::Int(i64::MIN)]));
    assert_eq!(tokenize_script("-9223372036854775809"), Err(TokenizeError::NumberOutOfRange));
    assert_eq!(Lexer::new(b"-9223372036854775809").integer(), Err(TokenizeError::NumberOutOfRange));
    assert_eq!(tokenize_script("+9223372036854775807"), Ok(vec![Token::Int(i64::MAX)]));
    assert_eq!(tokenize_script("+9223372036854775808"), Err(TokenizeError::NumberOutOfRange));
    assert_eq!(Lexer::new(b"+9223372036854775808").integer(), Err(TokenizeError::NumberOutOfRange));
    assert_eq!(tokenize_script("18446744073709551616.5"), Ok(vec![Token::Float("18446744073709551616.5".to_string())]));
    assert_eq!(tokenize_script(r#""\u{1_0000_0000_0000_0041}""#), Err(TokenizeError::NumberOutOfRange));
}

#[test]
fn the_longest_reading_says_where_it_ended() {
    let mut lexer = Lexer::new(b"12_3 rest");
    assert_eq!(parse_longest(&mut lexer), Ok(Token::Nat(123)));
    assert_eq!(lexer.pos, 4);
    let mut lexer = Lexer::new(b"-0x10)");
    assert_eq!(parse_longest(&mut lexer), Ok(Token::Int(-16)));
    assert_eq!(lexer.pos, 5);
    let mut lexer = Lexer::new(b"1.5e3 ");
    assert_eq!(parse_longest(&mut lexer), Ok(Token::Float("1.5e3".to_string())));
    assert_eq!(lexer.pos, 5);
    let mut lexer = Lexer::new(b"x12");
    assert_eq!(parse_longest(&mut lexer), Err(TokenizeError::FailedExpectedToken));
    assert_eq!(lexer.pos, 0);
    let mut lexer = Lexer::new(b"99999999999999999999 ");
    assert_eq!(parse_longest(&mut lexer), Err(TokenizeError::NumberOutOfRange));
    assert_eq!(lexer.pos, 20);
    let mut lexer = Lexer::new(b"-0x8000_0000_0000_0001)");
    assert_eq!(parse_longest(&mut lexer), Err(TokenizeError::NumberOutOfRange));
    assert_eq!(lexer.pos, 22);
}

#[test]
fn strings_are_compared_by_their_characters() {
    assert!(str_eq("func", "func"));
    assert!(str_eq("", ""));
    assert!(!str_eq("func", "funk"));
    assert!(!str_eq("func", "fun"));
    assert!(!str_eq("é", "e"));
}

#[test]
fn an_error_is_copied_with_its_word_and_its_context() {
    let e = ParseError::InvalidModulefield("bogus".to_string()).context(ParseContext::Func);
    assert_eq!(e.duplicate(), e);
    assert_eq!(ParseError::UnexpectedEot.duplicate(), ParseError::UnexpectedEot);
}
